//! The schema registry: the static list of endpoint and topic descriptors
//! that both sides build their key table from, and the derivation of a wire
//! key from a descriptor's path and type identity.

use vstd::prelude::*;
use vstd::string::StringSliceAdditionalSpecFns;
use crate::keys::KeyEntry;
use crate::keys::KeyRole;
use crate::wire::spec_digest;
use crate::wire::spec_le_bytes;
use crate::wire::DIGEST_BASIS;
use crate::wire::digest_fold;
use crate::wire::le_encode;

verus! {

/// How the device runs an endpoint's handler: synchronously with exclusive
/// access to the shared context, or as an independently scheduled unit of
/// work holding only a non-aliasing capability.
#[derive(Clone, Copy, Debug, PartialEq, Eq, Structural)]
pub enum HandlerKind {
    Blocking,
    Concurrent,
}

/// Which way a topic's one-way messages flow.
#[derive(Clone, Copy, Debug, PartialEq, Eq, Structural)]
pub enum TopicDirection {
    ToDevice,
    ToHost,
}

/// Type identity tags for the wire types this deployment registers.
pub const TYPE_UNIT: u32 = 0;

pub const TYPE_U32: u32 = 1;

pub const TYPE_U64: u32 = 2;

pub const TYPE_SINGLE_LED: u32 = 3;

pub const TYPE_LED_RESULT: u32 = 4;

pub const TYPE_ALL_LED: u32 = 5;

pub const TYPE_SCHEMA_REPORT: u32 = 6;

/// Role bytes folded into a key digest, so that the request, response and
/// topic keys of one path land apart in the shared namespace.
pub const ROLE_REQUEST: u8 = 1;

pub const ROLE_RESPONSE: u8 = 2;

pub const ROLE_TOPIC: u8 = 3;

pub const ROLE_ERROR: u8 = 4;

/// One request/response pair: its path, the type identities of both sides,
/// and how its handler runs on the device.
#[derive(Clone, Copy, Debug)]
pub struct EndpointDescriptor {
    pub path: &'static str,
    pub req_ty: u32,
    pub resp_ty: u32,
    pub kind: HandlerKind,
}

/// One one-way message type: its path, message type identity and direction.
#[derive(Clone, Copy, Debug)]
pub struct TopicDescriptor {
    pub path: &'static str,
    pub msg_ty: u32,
    pub direction: TopicDirection,
}

/// The byte string a key is digested from: role, type identity, then path.
pub open spec fn spec_key_input(path: Seq<u8>, role: u8, ty: u32) -> Seq<u8> {
    seq![role] + spec_le_bytes(ty as nat, 4) + path
}

/// The full 64-bit key of a (path, role, type) triple.
pub open spec fn spec_key(path: Seq<u8>, role: u8, ty: u32) -> u64 {
    spec_digest(spec_key_input(path, role, ty))
}

/// Derives the full key of a (path, role, type) triple.
pub fn derive_key(path: &str, role: u8, ty: u32) -> (r: u64)
    ensures
        r == spec_key(path.spec_bytes(), role, ty),
{
    let mut input: Vec<u8> = Vec::new();
    input.push(role);
    le_encode(ty as u64, 4, &mut input);
    let path_bytes = path.as_bytes();
    let mut i: usize = 0;
    let ghost prefix = seq![role] + spec_le_bytes(ty as nat, 4);
    proof {
        assert(input@ =~= prefix + path_bytes@.take(0));
    }
    while i < path_bytes.len()
        invariant
            i <= path_bytes@.len(),
            input@ == prefix + path_bytes@.take(i as int),
        decreases path_bytes@.len() - i,
    {
        let ghost pre = input@;
        input.push(path_bytes[i]);
        i = i + 1;
        proof {
            assert(input@ =~= prefix + path_bytes@.take(i as int));
        }
    }
    proof {
        assert(path_bytes@.take(path_bytes@.len() as int) =~= path_bytes@);
        assert(input@ == spec_key_input(path.spec_bytes(), role, ty));
    }
    digest_fold(DIGEST_BASIS, input.as_slice())
}

/// The key table entries a registry gives rise to: for each endpoint a
/// request and a response entry, then one entry per topic, then the
/// reserved error-path entry.
pub open spec fn spec_registry_entries(
    eps: Seq<EndpointDescriptor>,
    tps: Seq<TopicDescriptor>,
) -> Seq<KeyEntry> {
    Seq::new(
        2 * eps.len(),
        |k: int|
            if k % 2 == 0 {
                (KeyEntry {
                    key: spec_key(eps[k / 2].path.spec_bytes(), ROLE_REQUEST, eps[k / 2].req_ty),
                    role: (KeyRole::EndpointRequest { endpoint: (k / 2) as usize }),
                })
            } else {
                (KeyEntry {
                    key: spec_key(eps[k / 2].path.spec_bytes(), ROLE_RESPONSE, eps[k / 2].resp_ty),
                    role: (KeyRole::EndpointResponse { endpoint: (k / 2) as usize }),
                })
            },
    ) + Seq::new(
        tps.len(),
        |k: int|
            (KeyEntry {
                key: spec_key(tps[k].path.spec_bytes(), ROLE_TOPIC, tps[k].msg_ty),
                role: (KeyRole::TopicMessage { topic: k as usize }),
            }),
    ) + seq![
        (KeyEntry { key: spec_error_key(), role: KeyRole::ErrorPath }),
    ]
}

/// The reserved error-path key.
pub open spec fn spec_error_key() -> u64 {
    spec_key("error".spec_bytes(), ROLE_ERROR, TYPE_UNIT)
}

/// Builds the flat key entry list of a registry.
pub fn registry_entries(eps: &Vec<EndpointDescriptor>, tps: &Vec<TopicDescriptor>) -> (r: Vec<
    KeyEntry,
>)
    ensures
        r@ == spec_registry_entries(eps@, tps@),
{
    let ghost target = spec_registry_entries(eps@, tps@);
    let mut out: Vec<KeyEntry> = Vec::new();
    let mut i: usize = 0;
    proof {
        assert(out@ =~= target.take(0));
    }
    while i < eps.len()
        invariant
            i <= eps@.len(),
            out@ == target.take(2 * i as int),
            target == spec_registry_entries(eps@, tps@),
        decreases eps@.len() - i,
    {
        let d = eps[i];
        let req_key = derive_key(d.path, ROLE_REQUEST, d.req_ty);
        let resp_key = derive_key(d.path, ROLE_RESPONSE, d.resp_ty);
        out.push(KeyEntry { key: req_key, role: KeyRole::EndpointRequest { endpoint: i } });
        out.push(KeyEntry { key: resp_key, role: KeyRole::EndpointResponse { endpoint: i } });
        i = i + 1;
        proof {
            assert(out@ =~= target.take(2 * i as int));
        }
    }
    let mut j: usize = 0;
    while j < tps.len()
        invariant
            i == eps@.len(),
            j <= tps@.len(),
            out@ == target.take(2 * eps@.len() + j as int),
            target == spec_registry_entries(eps@, tps@),
        decreases tps@.len() - j,
    {
        let t = tps[j];
        let key = derive_key(t.path, ROLE_TOPIC, t.msg_ty);
        out.push(KeyEntry { key, role: KeyRole::TopicMessage { topic: j } });
        j = j + 1;
        proof {
            assert(out@ =~= target.take(2 * eps@.len() + j as int));
        }
    }
    let err_key = error_key();
    out.push(KeyEntry { key: err_key, role: KeyRole::ErrorPath });
    proof {
        assert(out@ =~= target);
    }
    out
}

/// Indices of this deployment's endpoints in its registry.
pub const EP_PING: usize = 0;

pub const EP_UNIQUE_ID: usize = 1;

pub const EP_SET_ONE: usize = 2;

pub const EP_SET_ALL: usize = 3;

pub const EP_TOGGLE: usize = 4;

pub const EP_SCHEMA: usize = 5;

pub const EP_COUNT: usize = 6;

/// The endpoints this deployment registers: four application endpoints,
/// one concurrent LED-toggle endpoint, and the built-in schema report.
pub open spec fn spec_workbook_endpoints() -> Seq<EndpointDescriptor> {
    seq![
        (EndpointDescriptor {
            path: "ping",
            req_ty: TYPE_U32,
            resp_ty: TYPE_U32,
            kind: HandlerKind::Blocking,
        }),
        (EndpointDescriptor {
            path: "unique_id/get",
            req_ty: TYPE_UNIT,
            resp_ty: TYPE_U64,
            kind: HandlerKind::Blocking,
        }),
        (EndpointDescriptor {
            path: "led/set_one",
            req_ty: TYPE_SINGLE_LED,
            resp_ty: TYPE_LED_RESULT,
            kind: HandlerKind::Blocking,
        }),
        (EndpointDescriptor {
            path: "led/set_all",
            req_ty: TYPE_ALL_LED,
            resp_ty: TYPE_UNIT,
            kind: HandlerKind::Blocking,
        }),
        (EndpointDescriptor {
            path: "led/toggle",
            req_ty: TYPE_U32,
            resp_ty: TYPE_UNIT,
            kind: HandlerKind::Concurrent,
        }),
        (EndpointDescriptor {
            path: "schema/get",
            req_ty: TYPE_UNIT,
            resp_ty: TYPE_SCHEMA_REPORT,
            kind: HandlerKind::Blocking,
        }),
    ]
}

/// The key entries of this deployment's registry.
pub open spec fn spec_workbook_entries() -> Seq<KeyEntry> {
    spec_registry_entries(spec_workbook_endpoints(), Seq::<TopicDescriptor>::empty())
}

/// Builds this deployment's endpoint list.
pub fn workbook_endpoints() -> (r: Vec<EndpointDescriptor>)
    ensures
        r@ == spec_workbook_endpoints(),
{
    let mut out: Vec<EndpointDescriptor> = Vec::new();
    out.push(
        EndpointDescriptor {
            path: "ping",
            req_ty: TYPE_U32,
            resp_ty: TYPE_U32,
            kind: HandlerKind::Blocking,
        },
    );
    out.push(
        EndpointDescriptor {
            path: "unique_id/get",
            req_ty: TYPE_UNIT,
            resp_ty: TYPE_U64,
            kind: HandlerKind::Blocking,
        },
    );
    out.push(
        EndpointDescriptor {
            path: "led/set_one",
            req_ty: TYPE_SINGLE_LED,
            resp_ty: TYPE_LED_RESULT,
            kind: HandlerKind::Blocking,
        },
    );
    out.push(
        EndpointDescriptor {
            path: "led/set_all",
            req_ty: TYPE_ALL_LED,
            resp_ty: TYPE_UNIT,
            kind: HandlerKind::Blocking,
        },
    );
    out.push(
        EndpointDescriptor {
            path: "led/toggle",
            req_ty: TYPE_U32,
            resp_ty: TYPE_UNIT,
            kind: HandlerKind::Concurrent,
        },
    );
    out.push(
        EndpointDescriptor {
            path: "schema/get",
            req_ty: TYPE_UNIT,
            resp_ty: TYPE_SCHEMA_REPORT,
            kind: HandlerKind::Blocking,
        },
    );
    proof {
        assert(out@ =~= spec_workbook_endpoints());
    }
    out
}

/// The workbook registry has thirteen key entries: two per endpoint and
/// the reserved error path.
pub proof fn lemma_entries_len()
    ensures
        spec_workbook_entries().len() == 13,
{
}

/// Derives the reserved error-path key.
pub fn error_key() -> (r: u64)
    ensures
        r == spec_error_key(),
{
    derive_key("error", ROLE_ERROR, TYPE_UNIT)
}

} // verus!
