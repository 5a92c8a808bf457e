//! Which field names are suggested for what was typed so far.

use vstd::prelude::*;

use super::complete::{named_like, suggestions};
use crate::dissect::tables::{abbrev_at, FIELD_COUNT};
use crate::text::{holds, lowered, stands_at};

verus! {

proof fn listed(word: Seq<char>, inside: bool, i: int, k: int)
    requires
        0 <= i,
        0 <= k < named_like(word, inside, i).len(),
    ensures
        ({
            let f = named_like(word, inside, i)[k];
            &&& i <= f < FIELD_COUNT
            &&& !inside ==> stands_at(abbrev_at(f), word, 0)
            &&& inside ==> !stands_at(abbrev_at(f), word, 0) && holds(abbrev_at(f), word)
        }),
    decreases FIELD_COUNT - i,
{
    let rest = named_like(word, inside, i + 1);
    let all = named_like(word, inside, i);
    if all == rest {
        if i < FIELD_COUNT {
            listed(word, inside, i + 1, k);
        }
    } else if k > 0 {
        assert(all == seq![i] + rest);
        assert(all[k] == rest[k - 1]);
        listed(word, inside, i + 1, k - 1);
    }
}

proof fn found(word: Seq<char>, inside: bool, i: int, f: int)
    requires
        0 <= i <= f < FIELD_COUNT,
        !inside ==> stands_at(abbrev_at(f), word, 0),
        inside ==> !stands_at(abbrev_at(f), word, 0) && holds(abbrev_at(f), word),
    ensures
        named_like(word, inside, i).contains(f),
    decreases FIELD_COUNT - i,
{
    let rest = named_like(word, inside, i + 1);
    let all = named_like(word, inside, i);
    if i == f {
        assert(all == seq![i] + rest);
        assert(all[0] == f);
    } else {
        found(word, inside, i + 1, f);
        let k = choose|k: int| 0 <= k < rest.len() && rest[k] == f;
        if all != rest {
            assert(all == seq![i] + rest);
            assert(all[k + 1] == f);
        }
    }
}

/// Every name that is suggested has in it what was typed, in any case, and
/// those that begin with it come before those that have it further on. There
/// are never more than asked for.
pub proof fn suggestions_continue_what_was_typed(prefix: Seq<char>, limit: int, j: int, k: int)
    requires
        0 <= limit,
        0 <= j < k < suggestions(prefix, limit).len(),
    ensures
        ({
            let s = suggestions(prefix, limit);
            let word = lowered(prefix);
            &&& s.len() <= limit
            &&& holds(abbrev_at(s[j]), word)
            &&& holds(abbrev_at(s[k]), word)
            &&& stands_at(abbrev_at(s[k]), word, 0) ==> stands_at(abbrev_at(s[j]), word, 0)
        }),
{
    let word = lowered(prefix);
    let front = named_like(word, false, 0);
    let back = named_like(word, true, 0);
    let all = front + back;
    let s = suggestions(prefix, limit);
    assert(s[j] == all[j] && s[k] == all[k]);
    if j < front.len() {
        listed(word, false, 0, j);
        assert(stands_at(abbrev_at(s[j]), word, 0));
    } else {
        listed(word, true, 0, j - front.len());
    }
    if k < front.len() {
        listed(word, false, 0, k);
        assert(stands_at(abbrev_at(s[k]), word, 0));
    } else {
        listed(word, true, 0, k - front.len());
    }
}

/// No name that has in it what was typed is left out, where there is room.
pub proof fn no_suggestion_is_left_out(prefix: Seq<char>, limit: int, f: int)
    requires
        prefix.len() > 0,
        0 <= f < FIELD_COUNT,
        holds(abbrev_at(f), lowered(prefix)),
        named_like(lowered(prefix), false, 0).len() + named_like(
            lowered(prefix),
            true,
            0,
        ).len() <= limit,
    ensures
        suggestions(prefix, limit).contains(f),
{
    let word = lowered(prefix);
    let front = named_like(word, false, 0);
    let back = named_like(word, true, 0);
    let all = front + back;
    if stands_at(abbrev_at(f), word, 0) {
        found(word, false, 0, f);
        let k = choose|k: int| 0 <= k < front.len() && front[k] == f;
        assert(all[k] == f);
    } else {
        found(word, true, 0, f);
        let k = choose|k: int| 0 <= k < back.len() && back[k] == f;
        assert(all[front.len() + k] == f);
    }
}

} // verus!
