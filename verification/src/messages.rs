//! Message records and the store that owns them.
//!
//! The store keeps every record ever posted, in arrival order, each under a
//! unique, strictly increasing id.  A retrieval returns the unread records
//! that name the caller as either endpoint and marks them read in the same
//! step, so no concurrent insert can slip between the two.

use vstd::prelude::*;

use crate::text::lemma_join_push;
use crate::text::join_tokens;
use crate::text::join_with;
use crate::text::tokenize;
use crate::text::tokens_of;
use crate::text::views_of;

verus! {

/// One message as a client hands it in: sender, intended recipient, read
/// flag (`0` for unread, `1` for read) and free-text contents.
#[derive(Debug)]
pub struct Messages {
    pub from_user: String,
    pub to_user: String,
    pub have_read: u8,
    pub contents: String,
}

/// The mathematical image of one stored record.
pub struct Rec {
    pub id: int,
    pub from_user: Seq<char>,
    pub to_user: Seq<char>,
    pub read: bool,
    pub contents: Seq<char>,
}

/// One row of the store.
struct Row {
    id: u64,
    from_user: String,
    to_user: String,
    have_read: bool,
    contents: String,
}

impl Row {
    spec fn rec(&self) -> Rec {
        Rec {
            id: self.id as int,
            from_user: self.from_user@,
            to_user: self.to_user@,
            read: self.have_read,
            contents: self.contents@,
        }
    }
}

/// The records of a sequence of rows.
spec fn recs_of(rows: Seq<Row>) -> Seq<Rec> {
    rows.map_values(|r: Row| r.rec())
}

/// The durable message store.  Its view is the sequence of records in
/// arrival order; ids are unique and strictly increase along it.
pub struct Store {
    rows: Vec<Row>,
    next_id: u64,
}

impl View for Store {
    type V = Seq<Rec>;

    closed spec fn view(&self) -> Seq<Rec> {
        recs_of(self.rows@)
    }
}

impl Store {
    /// The id the next inserted record will receive.
    pub closed spec fn next_id(&self) -> int {
        self.next_id as int
    }

    /// Every stored id lies below the next free id, and ids strictly
    /// increase with position, so arrival order and id order agree.
    pub closed spec fn wf(&self) -> bool {
        &&& forall|k: int|
            0 <= k < self@.len() ==> #[trigger] self@[k].id < self.next_id()
        &&& forall|k1: int, k2: int|
            0 <= k1 < k2 < self@.len() ==> self@[k1].id < self@[k2].id
    }

    /// A fresh, empty store.
    pub fn new() -> (s: Store)
        ensures
            s@ == Seq::<Rec>::empty(),
            s.wf(),
            s.next_id() == 1,
    {
        let s = Store { rows: Vec::new(), next_id: 1 };
        proof {
            assert(s@ =~= Seq::<Rec>::empty());
        }
        s
    }

    /// Whether another record can still receive a fresh id.
    pub fn can_insert(&self) -> (b: bool)
        ensures
            b == (self.next_id() < u64::MAX),
    {
        self.next_id < u64::MAX
    }
}

/// Resets the store to its starting state: no records, ids starting over.
/// It clears whatever was there before, so it is idempotent.
pub fn init_messages(store: &mut Store)
    ensures
        final(store)@ == Seq::<Rec>::empty(),
        final(store).wf(),
        final(store).next_id() == 1,
{
    store.rows = Vec::new();
    store.next_id = 1;
    proof {
        assert(final(store)@ =~= Seq::<Rec>::empty());
    }
}

impl Messages {
    /// A new, unread message from `from_user` to `to_user`.
    pub fn new(from_user: String, to_user: String, contents: String) -> (m: Messages)
        ensures
            m.from_user == from_user,
            m.to_user == to_user,
            m.have_read == 0,
            m.contents == contents,
    {
        Messages { from_user, to_user, have_read: 0, contents }
    }

    /// Appends this message to the store as a fresh unread record, under the
    /// next free id.
    pub fn insert(self, store: &mut Store)
        requires
            old(store).wf(),
            old(store).next_id() < u64::MAX,
        ensures
            final(store).wf(),
            final(store)@ == old(store)@.push(
                Rec {
                    id: old(store).next_id(),
                    from_user: self.from_user@,
                    to_user: self.to_user@,
                    read: false,
                    contents: self.contents@,
                },
            ),
            final(store).next_id() == old(store).next_id() + 1,
    {
        let id = store.next_id;
        store.next_id = store.next_id + 1;
        let row = Row {
            id,
            from_user: self.from_user,
            to_user: self.to_user,
            have_read: false,
            contents: self.contents,
        };
        proof {
            assert(recs_of(store.rows@.push(row)) =~= recs_of(store.rows@).push(row.rec()));
        }
        store.rows.push(row);
        proof {
            assert forall|k: int|
                0 <= k < store@.len() implies #[trigger] store@[k].id < store.next_id() by {
                if k < old(store)@.len() {
                    assert(old(store)@[k].id < old(store).next_id());
                }
            }
            assert forall|k1: int, k2: int|
                0 <= k1 < k2 < store@.len() implies store@[k1].id < store@[k2].id by {
                if k2 < old(store)@.len() {
                    assert(old(store)@[k1].id < old(store)@[k2].id);
                } else {
                    assert(old(store)@[k1].id < old(store).next_id());
                }
            }
        }
    }
}

/// Whether an unread record names `user` as either endpoint, and so is due
/// to be returned, and consumed, by that user's next retrieval.
pub open spec fn eligible(r: Rec, user: Seq<char>) -> bool {
    !r.read && (r.from_user == user || r.to_user == user)
}

/// The line a record is rendered as: sender, recipient and contents,
/// separated by single spaces.
pub open spec fn line_of(r: Rec) -> Seq<char> {
    r.from_user + seq![' '] + r.to_user + seq![' '] + r.contents
}

/// The records of `s` after a retrieval by `user`: every record eligible to
/// `user` is marked read, every other record is unchanged.
pub open spec fn mark_read(s: Seq<Rec>, user: Seq<char>) -> Seq<Rec> {
    s.map_values(
        |r: Rec|
            if eligible(r, user) {
                Rec { read: true, ..r }
            } else {
                r
            },
    )
}

/// The rendered lines of the records a retrieval by `user` returns: the
/// records eligible to `user`, in arrival order.
pub open spec fn unread_lines(s: Seq<Rec>, user: Seq<char>) -> Seq<Seq<char>>
    decreases s.len(),
{
    if s.len() == 0 {
        Seq::empty()
    } else {
        let rest = unread_lines(s.drop_last(), user);
        if eligible(s.last(), user) {
            rest.push(line_of(s.last()))
        } else {
            rest
        }
    }
}

/// Every line a retrieval renders contains at least the two separating
/// spaces, so it is never empty.
pub proof fn lemma_lines_nonempty(s: Seq<Rec>, user: Seq<char>)
    ensures
        forall|k: int|
            0 <= k < unread_lines(s, user).len() ==> (#[trigger] unread_lines(s, user)[k]).len()
                >= 2,
    decreases s.len(),
{
    if s.len() > 0 {
        lemma_lines_nonempty(s.drop_last(), user);
        let rest = unread_lines(s.drop_last(), user);
        assert forall|k: int|
            0 <= k < unread_lines(s, user).len() implies (#[trigger] unread_lines(s, user)[k]).len()
            >= 2 by {
            if k < rest.len() {
                assert(rest[k].len() >= 2);
            } else {
                assert(line_of(s.last()).len() >= 2);
            }
        }
    }
}

/// Returns every unread record that names `from_user` as either endpoint,
/// rendered one per line in arrival order and joined by newlines (the empty
/// string when there is none), and in the same step marks exactly those
/// records read.
pub fn get_conversation(store: &mut Store, from_user: String) -> (res: String)
    requires
        old(store).wf(),
    ensures
        final(store).wf(),
        final(store)@ == mark_read(old(store)@, from_user@),
        final(store).next_id() == old(store).next_id(),
        res@ == join_with(unread_lines(old(store)@, from_user@), seq!['\n']),
{
    let ghost s0 = store@;
    let ghost u = from_user@;
    let mut new_rows: Vec<Row> = Vec::new();
    let mut res = String::new();
    let mut count: usize = 0;
    let mut i: usize = 0;
    proof {
        assert(s0.take(0) =~= Seq::<Rec>::empty());
        assert(recs_of(new_rows@) =~= mark_read(s0.take(0), u));
    }
    while i < store.rows.len()
        invariant
            *store == *old(store),
            old(store).wf(),
            s0 == store@,
            u == from_user@,
            i <= store.rows@.len(),
            count <= i,
            s0.len() == store.rows@.len(),
            recs_of(new_rows@) == mark_read(s0.take(i as int), u),
            count == unread_lines(s0.take(i as int), u).len(),
            res@ == join_with(unread_lines(s0.take(i as int), u), seq!['\n']),
        decreases store.rows@.len() - i,
    {
        let ghost taken = s0.take(i as int);
        proof {
            assert(s0.take(i + 1).drop_last() =~= taken);
            assert(s0.take(i + 1).last() == s0[i as int]);
            assert(s0[i as int] == store.rows@[i as int].rec());
        }
        let row = &store.rows[i];
        let hit = !row.have_read && (row.from_user == from_user || row.to_user == from_user);
        if hit {
            proof {
                reveal_strlit(" ");
                reveal_strlit("\n");
                assert(" "@ =~= seq![' ']);
                assert("\n"@ =~= seq!['\n']);
                lemma_join_push(unread_lines(taken, u), seq!['\n'], line_of(s0[i as int]));
            }
            if count > 0 {
                res.append("\n");
            }
            res.append(row.from_user.as_str());
            res.append(" ");
            res.append(row.to_user.as_str());
            res.append(" ");
            res.append(row.contents.as_str());
            count += 1;
            let marked = Row {
                id: row.id,
                from_user: row.from_user.clone(),
                to_user: row.to_user.clone(),
                have_read: true,
                contents: row.contents.clone(),
            };
            proof {
                assert(recs_of(new_rows@.push(marked)) =~= recs_of(new_rows@).push(marked.rec()));
                assert(recs_of(new_rows@).push(marked.rec()) =~= mark_read(s0.take(i + 1), u));
            }
            new_rows.push(marked);
        } else {
            let kept = Row {
                id: row.id,
                from_user: row.from_user.clone(),
                to_user: row.to_user.clone(),
                have_read: row.have_read,
                contents: row.contents.clone(),
            };
            proof {
                assert(recs_of(new_rows@.push(kept)) =~= recs_of(new_rows@).push(kept.rec()));
                assert(recs_of(new_rows@).push(kept.rec()) =~= mark_read(s0.take(i + 1), u));
            }
            new_rows.push(kept);
        }
        i += 1;
    }
    proof {
        assert(s0.take(s0.len() as int) =~= s0);
    }
    store.rows = new_rows;
    proof {
        assert(final(store)@ == mark_read(s0, u));
        assert forall|k: int|
            0 <= k < final(store)@.len() implies #[trigger] final(store)@[k].id < final(
            store).next_id() by {
            assert(s0[k].id < old(store).next_id());
        }
        assert forall|k1: int, k2: int|
            0 <= k1 < k2 < final(store)@.len() implies final(store)@[k1].id < final(
            store)@[k2].id by {
            assert(s0[k1].id < s0[k2].id);
        }
    }
    res
}

/// Turns a `POST` request into the message it carries: the second and third
/// tokens are the endpoints, and the remaining tokens, joined by single
/// spaces, are the contents.  The leading verb token is skipped unexamined.
pub fn parse_message(message: String) -> (m: Messages)
    requires
        tokens_of(message@).len() >= 4,
    ensures
        m.from_user@ == tokens_of(message@)[1],
        m.to_user@ == tokens_of(message@)[2],
        m.contents@ == join_with(tokens_of(message@).skip(3), seq![' ']),
        m.have_read == 0,
{
    let tokens = tokenize(message.as_str());
    let from_user = tokens[1].clone();
    let to_user = tokens[2].clone();
    let contents = join_tokens(&tokens, 3);
    proof {
        assert(views_of(tokens@).skip(3) =~= tokens_of(message@).skip(3));
    }
    Messages::new(from_user, to_user, contents)
}

} // verus!
