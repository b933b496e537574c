//! The answer of `herdr pane list`: which pane has the focus.
use vstd::prelude::*;

use crate::event::{
    context_is, get_member, json_at, json_from_slice, json_get, pane_context_from_value,
    pane_context_of, parse_json_slice, JsonValue, PaneContext,
};

verus! {

/// Why a pane list could not be read.
#[derive(Debug)]
pub enum HerdrError {
    /// The pane list is not JSON.
    Json(serde_json::Error),
}

/// `p` is a pane whose `focused` member is `true`.
pub open spec fn is_focused(p: JsonValue) -> bool {
    json_get(p, "focused"@) == Some(JsonValue::Bool(true))
}

/// The first focused pane of `panes`.
pub open spec fn first_focused(panes: Seq<JsonValue>) -> Option<JsonValue>
    decreases panes.len(),
{
    if panes.len() == 0 {
        None
    } else if is_focused(panes[0]) {
        Some(panes[0])
    } else {
        first_focused(panes.drop_first())
    }
}

/// The context of the first focused pane in `result.panes`; none when that
/// pane does not name both a pane id and a directory.
pub open spec fn focused_pane_of(v: JsonValue) -> Option<(Seq<char>, Seq<char>)> {
    match json_at(v, seq!["result"@, "panes"@]) {
        Some(JsonValue::Array(panes)) => match first_focused(panes@) {
            Some(p) => pane_context_of(p),
            None => None,
        },
        _ => None,
    }
}

fn is_focused_pane(p: &JsonValue) -> (r: bool)
    ensures
        r == is_focused(*p),
{
    let key = "focused".to_owned();
    match get_member(p, &key) {
        Some(JsonValue::Bool(b)) => *b,
        _ => false,
    }
}

/// The pane that a parsed pane list marks as focused.
pub fn focused_pane_from_value(value: &JsonValue) -> (r: Option<PaneContext>)
    ensures
        context_is(r, focused_pane_of(*value)),
{
    let result_key = "result".to_owned();
    let panes_key = "panes".to_owned();
    let result = match get_member(value, &result_key) {
        Some(v) => v,
        None => {
            assert(json_at(*value, seq!["result"@, "panes"@]) is None);
            return None;
        },
    };
    let panes_value = match get_member(result, &panes_key) {
        Some(v) => v,
        None => {
            assert(seq!["result"@, "panes"@].drop_first() =~= seq!["panes"@]);
            assert(json_at(*result, seq!["panes"@]) is None);
            assert(json_at(*value, seq!["result"@, "panes"@]) is None);
            return None;
        },
    };
    proof {
        let path = seq!["result"@, "panes"@];
        assert(path.drop_first() =~= seq!["panes"@]);
        assert(seq!["panes"@].drop_first() =~= Seq::<Seq<char>>::empty());
        assert(json_at(*panes_value, Seq::<Seq<char>>::empty()) == Some(*panes_value));
        assert(json_at(*result, seq!["panes"@]) == Some(*panes_value));
        assert(json_at(*value, path) == Some(*panes_value));
    }
    match panes_value {
        JsonValue::Array(panes) => {
            let n = panes.len();
            let mut i: usize = 0;
            assert(panes@.skip(0) =~= panes@);
            assert(focused_pane_of(*value) == match first_focused(panes@) {
                Some(p) => pane_context_of(p),
                None => None,
            });
            while i < n
                invariant
                    focused_pane_of(*value) == match first_focused(panes@) {
                        Some(p) => pane_context_of(p),
                        None => None,
                    },
                    n == panes@.len(),
                    i <= n,
                    first_focused(panes@) == first_focused(panes@.skip(i as int)),
                decreases n - i,
            {
                assert(panes@.skip(i as int).drop_first() =~= panes@.skip(i + 1));
                assert(panes@.skip(i as int)[0] == panes@[i as int]);
                if is_focused_pane(&panes[i]) {
                    return pane_context_from_value(&panes[i]);
                }
                i = i + 1;
            }
            None
        },
        _ => None,
    }
}

/// What a pane list gives: `Some(context)` when it is JSON, `None` when it
/// is refused.
pub open spec fn pane_list_outcome(json: Seq<u8>) -> Option<Option<(Seq<char>, Seq<char>)>> {
    match json_from_slice(json) {
        Some(v) => Some(focused_pane_of(v)),
        None => None,
    }
}

/// Reads the focused pane out of the JSON answer of `herdr pane list`.
pub fn focused_pane_from_json(json: &[u8]) -> (r: Result<Option<PaneContext>, HerdrError>)
    ensures
        match pane_list_outcome(json@) {
            Some(c) => r is Ok && context_is(r->Ok_0, c),
            None => r is Err,
        },
{
    match parse_json_slice(json) {
        Ok(value) => Ok(focused_pane_from_value(&value)),
        Err(error) => Err(HerdrError::Json(error)),
    }
}

} // verus!
