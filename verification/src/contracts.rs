//! Reading the contracts that code generation and validation depend on.
use vstd::prelude::*;
use crate::ast::{ContractBag, bag_get};
use crate::value::{value_as_bool, value_as_str, value_get_str};

verus! {

/// `must_reply` is present and, once untagged, the boolean `true`.
pub open spec fn spec_has_must_reply(c: ContractBag) -> bool {
    match bag_get(c.entries@, "must_reply"@) {
        Some(v) => value_as_bool(v) == Some(true),
        None => false,
    }
}

/// The text under `timeout.after`, when `timeout` is a mapping whose
/// `after` entry is a string.
pub open spec fn spec_timeout_after(c: ContractBag) -> Option<Seq<char>> {
    match bag_get(c.entries@, "timeout"@) {
        Some(t) => match value_get_str(t, "after"@) {
            Some(a) => value_as_str(a),
            None => None,
        },
        None => None,
    }
}

/// Whether the contracts declare `must_reply: true`.
pub fn has_must_reply(contracts: &ContractBag) -> (r: bool)
    ensures
        r == spec_has_must_reply(*contracts),
{
    match contracts.get("must_reply") {
        Some(v) => match v.as_bool() {
            Some(b) => b,
            None => false,
        },
        None => false,
    }
}

/// The `timeout.after` window, when declared.
pub fn timeout_after(contracts: &ContractBag) -> (r: Option<String>)
    ensures
        r matches Some(s) ==> spec_timeout_after(*contracts) == Some(s@),
        r is None ==> spec_timeout_after(*contracts) is None,
{
    match contracts.get("timeout") {
        Some(t) => match t.get_str("after") {
            Some(a) => match a.as_str() {
                Some(s) => Some(s.to_owned()),
                None => None,
            },
            None => None,
        },
        None => None,
    }
}

} // verus!
