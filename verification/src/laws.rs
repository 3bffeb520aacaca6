//! The guarantees the store's retrieval semantics give, stated and proved
//! once over the store's mathematical model.

use vstd::prelude::*;

use crate::dispatch::get_response;
use crate::messages::Rec;
use crate::messages::eligible;
use crate::messages::line_of;
use crate::messages::mark_read;
use crate::messages::unread_lines;

verus! {

/// Insertion order is retrieval order: the lines a retrieval renders for
/// records committed in two batches, one after the other, are the lines of
/// the first batch followed by the lines of the second.  In particular,
/// records posted later never overtake earlier ones in any retrieval.
pub proof fn lemma_insertion_order(s1: Seq<Rec>, s2: Seq<Rec>, user: Seq<char>)
    ensures
        unread_lines(s1 + s2, user) == unread_lines(s1, user) + unread_lines(s2, user),
    decreases s2.len(),
{
    if s2.len() == 0 {
        assert(s1 + s2 =~= s1);
        assert(unread_lines(s1, user) + unread_lines(s2, user) =~= unread_lines(s1, user));
    } else {
        let rest = s2.drop_last();
        lemma_insertion_order(s1, rest, user);
        assert((s1 + s2).drop_last() =~= s1 + rest);
        assert((s1 + s2).last() == s2.last());
        if eligible(s2.last(), user) {
            assert((unread_lines(s1, user) + unread_lines(rest, user)).push(line_of(s2.last()))
                =~= unread_lines(s1, user) + unread_lines(rest, user).push(line_of(s2.last())));
        }
    }
}

/// A retrieval renders exactly the eligible records, as a subsequence of the
/// store in arrival order: nothing is reordered, dropped or invented.
pub proof fn lemma_retrieval_renders_eligible(s: Seq<Rec>, user: Seq<char>)
    ensures
        unread_lines(s, user) == s.filter(|r: Rec| eligible(r, user)).map_values(
            |r: Rec| line_of(r),
        ),
    decreases s.len(),
{
    reveal(Seq::filter);
    if s.len() == 0 {
        assert(unread_lines(s, user) =~= s.filter(|r: Rec| eligible(r, user)).map_values(
            |r: Rec| line_of(r),
        ));
    } else {
        let sub = s.drop_last();
        lemma_retrieval_renders_eligible(sub, user);
        assert(unread_lines(s, user) =~= s.filter(|r: Rec| eligible(r, user)).map_values(
            |r: Rec| line_of(r),
        ));
    }
}

/// A newly posted record lands at the end of the retrievals it belongs to
/// and leaves every other retrieval unchanged.
pub proof fn lemma_post_appends(s: Seq<Rec>, r: Rec, user: Seq<char>)
    ensures
        unread_lines(s.push(r), user) == if eligible(r, user) {
            unread_lines(s, user).push(line_of(r))
        } else {
            unread_lines(s, user)
        },
{
    assert(s.push(r).drop_last() =~= s);
    assert(s.push(r).last() == r);
}

/// Consume-once: a record that one retrieval returned is eligible to no
/// later retrieval, whoever asks.
pub proof fn lemma_consume_once(s: Seq<Rec>, first: Seq<char>, second: Seq<char>, i: int)
    requires
        0 <= i < s.len(),
        eligible(s[i], first),
    ensures
        !eligible(mark_read(s, first)[i], second),
{
}

/// A retrieval straight after another by the same user finds nothing left.
pub proof fn lemma_second_get_empty(s: Seq<Rec>, user: Seq<char>)
    ensures
        unread_lines(mark_read(s, user), user) == Seq::<Seq<char>>::empty(),
    decreases s.len(),
{
    if s.len() == 0 {
        assert(mark_read(s, user) =~= Seq::<Rec>::empty());
    } else {
        let rest = s.drop_last();
        lemma_second_get_empty(rest, user);
        assert(mark_read(s, user).drop_last() =~= mark_read(rest, user));
        assert(!eligible(mark_read(s, user).last(), user));
    }
}

/// Symmetric matching: an unread record is eligible to either of its
/// endpoints, but only to whichever retrieves first; after that one, the
/// other endpoint — indeed anyone — finds it consumed.
pub proof fn lemma_symmetric_matching(s: Seq<Rec>, i: int, first: Seq<char>, second: Seq<char>)
    requires
        0 <= i < s.len(),
        !s[i].read,
        first == s[i].from_user || first == s[i].to_user,
        second == s[i].from_user || second == s[i].to_user,
    ensures
        eligible(s[i], first),
        eligible(s[i], second),
        !eligible(mark_read(s, first)[i], second),
{
}

/// Init clears: against a store with no records — what `init` leaves — every
/// retrieval answers the literal `null`.
pub proof fn lemma_init_clears(user: Seq<char>)
    ensures
        unread_lines(Seq::<Rec>::empty(), user) == Seq::<Seq<char>>::empty(),
        get_response(Seq::<Rec>::empty(), user) == "null"@,
{
}

} // verus!
