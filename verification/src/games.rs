//! A game of chess: the position, the moves made, how often each position arose, the status
//! (which decides which actions the players may take) and the tags of the game.
use crate::board_moves::BoardMove;
use crate::chess_boards::{BoardStatus, ChessBoard, LegalMoves};
use crate::colors::Color;
use crate::errors::LibChessError;
use crate::game_history::GameHistory;
use crate::text::{copy_str, push_str};
use crate::zobrist::ZobristHasher;
use std::collections::BTreeMap;
use vstd::prelude::*;

verus! {

broadcast use vstd::laws_cmp::group_laws_cmp, vstd::std_specs::btree::group_btree_axioms;

/// Strict lexicographic order of texts by character codes.
pub open spec fn text_less(a: Seq<char>, b: Seq<char>) -> bool
    decreases a.len(),
{
    if b.len() == 0 {
        false
    } else if a.len() == 0 {
        true
    } else if a[0] != b[0] {
        a[0] < b[0]
    } else {
        text_less(a.drop_first(), b.drop_first())
    }
}

pub proof fn lemma_text_less_irreflexive(a: Seq<char>)
    ensures
        !text_less(a, a),
    decreases a.len(),
{
    if a.len() > 0 {
        lemma_text_less_irreflexive(a.drop_first());
    }
}

pub proof fn lemma_text_less_transitive(a: Seq<char>, b: Seq<char>, c: Seq<char>)
    requires
        text_less(a, b),
        text_less(b, c),
    ensures
        text_less(a, c),
    decreases a.len(),
{
    if a.len() > 0 && a[0] == b[0] && b[0] == c[0] {
        lemma_text_less_transitive(a.drop_first(), b.drop_first(), c.drop_first());
    }
}

pub proof fn lemma_text_less_total(a: Seq<char>, b: Seq<char>)
    requires
        a != b,
    ensures
        text_less(a, b) || text_less(b, a),
    decreases a.len(),
{
    if a.len() > 0 && b.len() > 0 && a[0] == b[0] {
        if a.drop_first() == b.drop_first() {
            assert(a =~= seq![a[0]] + a.drop_first());
            assert(b =~= seq![b[0]] + b.drop_first());
        }
        lemma_text_less_total(a.drop_first(), b.drop_first());
    } else if a.len() == 0 && b.len() == 0 {
        assert(a =~= b);
    }
}

/// Compares two texts: -1, 0 or 1 as `a` comes before, equals or comes after `b`.
pub(crate) fn compare_text(a: &str, b: &str) -> (r: i8)
    ensures
        r == 0 <==> a@ == b@,
        r < 0 <==> text_less(a@, b@),
        r > 0 <==> text_less(b@, a@),
{
    let n = a.unicode_len();
    let m = b.unicode_len();
    let mut i: usize = 0;
    assert(a@.subrange(0, n as int) =~= a@);
    assert(b@.subrange(0, m as int) =~= b@);
    while i < n && i < m
        invariant
            i <= n,
            i <= m,
            n == a@.len(),
            m == b@.len(),
            a@.subrange(0, i as int) == b@.subrange(0, i as int),
            text_less(a@, b@) == text_less(a@.subrange(i as int, n as int), b@.subrange(i as int, m as int)),
            text_less(b@, a@) == text_less(b@.subrange(i as int, m as int), a@.subrange(i as int, n as int)),
        decreases n - i,
    {
        let x = a.get_char(i);
        let y = b.get_char(i);
        let ghost sa = a@.subrange(i as int, n as int);
        let ghost sb = b@.subrange(i as int, m as int);
        proof {
            assert(sa[0] == x);
            assert(sb[0] == y);
            assert(sa.drop_first() =~= a@.subrange(i + 1, n as int));
            assert(sb.drop_first() =~= b@.subrange(i + 1, m as int));
        }
        if x < y {
            proof {
                if a@ == b@ {
                    assert(a@[i as int] == b@[i as int]);
                }
            }
            return -1;
        }
        if y < x {
            proof {
                if a@ == b@ {
                    assert(a@[i as int] == b@[i as int]);
                }
            }
            return 1;
        }
        assert(a@.subrange(0, i + 1) =~= a@.subrange(0, i as int).push(x));
        assert(b@.subrange(0, i + 1) =~= b@.subrange(0, i as int).push(y));
        i = i + 1;
    }
    let ghost sa = a@.subrange(i as int, n as int);
    let ghost sb = b@.subrange(i as int, m as int);
    if n == m {
        assert(a@ =~= a@.subrange(0, i as int));
        assert(b@ =~= b@.subrange(0, i as int));
        assert(sa.len() == 0 && sb.len() == 0);
        0
    } else if n < m {
        proof {
            if a@ == b@ {
                assert(a@.len() == b@.len());
            }
        }
        -1
    } else {
        proof {
            if a@ == b@ {
                assert(a@.len() == b@.len());
            }
        }
        1
    }
}

/// The tags of a game (such as "Event" or "White") and their values, in the order of the tags.
#[derive(Debug)]
pub struct GameMetadata {
    metadata: Vec<(String, String)>,
}

/// The tags that PGN texts list first, in this order.
pub open spec fn primary_tags() -> Seq<Seq<char>> {
    seq![
        seq!['E', 'v', 'e', 'n', 't'],
        seq!['S', 'i', 't', 'e'],
        seq!['D', 'a', 't', 'e'],
        seq!['R', 'o', 'u', 'n', 'd'],
        seq!['W', 'h', 'i', 't', 'e'],
        seq!['B', 'l', 'a', 'c', 'k'],
        seq!['R', 'e', 's', 'u', 'l', 't'],
    ]
}

/// The map from keys to values that a list of pairs gives, when no key occurs twice.
pub open spec fn map_of(e: Seq<(Seq<char>, Seq<char>)>) -> Map<Seq<char>, Seq<char>> {
    Map::new(
        |k: Seq<char>| exists|i: int| 0 <= i < e.len() && #[trigger] e[i].0 == k,
        |k: Seq<char>| e[choose|i: int| 0 <= i < e.len() && #[trigger] e[i].0 == k].1,
    )
}

/// No key occurs twice.
pub open spec fn unique_keys(e: Seq<(Seq<char>, Seq<char>)>) -> bool {
    forall|i: int, j: int| 0 <= i < j < e.len() ==> #[trigger] e[i].0 != #[trigger] e[j].0
}

/// Replacing or adding the pair of a key, the other pairs kept, inserts it into the map.
proof fn lemma_map_of_insert(
    e: Seq<(Seq<char>, Seq<char>)>,
    e0: Seq<(Seq<char>, Seq<char>)>,
    tag: Seq<char>,
    value: Seq<char>,
)
    requires
        unique_keys(e),
        unique_keys(e0),
        e.contains((tag, value)),
        forall|k: (Seq<char>, Seq<char>)| k.0 != tag ==> (e.contains(k) <==> e0.contains(k)),
        forall|k: (Seq<char>, Seq<char>)| #[trigger] e.contains(k) && k.0 == tag ==> k.1 == value,
    ensures
        map_of(e) == map_of(e0).insert(tag, value),
{
    let m = map_of(e);
    let m0 = map_of(e0).insert(tag, value);
    assert forall|k: Seq<char>| m.contains_key(k) <==> m0.contains_key(k) by {
        if k == tag {
            let i = choose|i: int| 0 <= i < e.len() && e[i] == (tag, value);
            assert(e[i].0 == k);
        } else {
            if m.contains_key(k) {
                let i = choose|i: int| 0 <= i < e.len() && #[trigger] e[i].0 == k;
                assert(e.contains(e[i]));
                let j = choose|j: int| 0 <= j < e0.len() && e0[j] == e[i];
                assert(e0[j].0 == k);
            }
            if m0.contains_key(k) {
                let j = choose|j: int| 0 <= j < e0.len() && #[trigger] e0[j].0 == k;
                assert(e0.contains(e0[j]));
                let i = choose|i: int| 0 <= i < e.len() && e[i] == e0[j];
                assert(e[i].0 == k);
            }
        }
    }
    assert forall|k: Seq<char>| m.contains_key(k) implies m[k] == m0[k] by {
        let i = choose|i: int| 0 <= i < e.len() && #[trigger] e[i].0 == k;
        assert(e.contains(e[i]));
        if k == tag {
        } else {
            let j = choose|j: int| 0 <= j < e0.len() && e0[j] == e[i];
            let j2 = choose|j: int| 0 <= j < e0.len() && #[trigger] e0[j].0 == k;
            assert(e0[j].0 == k);
            if j != j2 {
                if j < j2 {
                    assert(e0[j].0 != e0[j2].0);
                } else {
                    assert(e0[j2].0 != e0[j].0);
                }
            }
        }
    }
    assert(m =~= m0);
}

/// Pairs in increasing order of their keys have no key twice.
proof fn lemma_ordered_unique(e: Seq<(Seq<char>, Seq<char>)>)
    requires
        forall|a: int, b: int| 0 <= a < b < e.len() ==> text_less(#[trigger] e[a].0, #[trigger] e[b].0),
    ensures
        unique_keys(e),
{
    assert forall|i: int, j: int| 0 <= i < j < e.len() implies #[trigger] e[i].0 != #[trigger] e[j].0 by {
        lemma_text_less_irreflexive(e[i].0);
    }
}

/// The tags of a new game: "?" for the event, site, date, round and result, "Player 1" and
/// "Player 2" for white and black.
pub open spec fn default_tags() -> Map<Seq<char>, Seq<char>> {
    Map::<Seq<char>, Seq<char>>::empty()
        .insert(seq!['E', 'v', 'e', 'n', 't'], seq!['?'])
        .insert(seq!['S', 'i', 't', 'e'], seq!['?'])
        .insert(seq!['D', 'a', 't', 'e'], seq!['?'])
        .insert(seq!['R', 'o', 'u', 'n', 'd'], seq!['?'])
        .insert(seq!['W', 'h', 'i', 't', 'e'], seq!['P', 'l', 'a', 'y', 'e', 'r', ' ', '1'])
        .insert(seq!['B', 'l', 'a', 'c', 'k'], seq!['P', 'l', 'a', 'y', 'e', 'r', ' ', '2'])
        .insert(seq!['R', 'e', 's', 'u', 'l', 't'], seq!['?'])
}

impl GameMetadata {
    /// The tags in their order, with their values.
    pub closed spec fn entries(self) -> Seq<(Seq<char>, Seq<char>)> {
        self.metadata@.map_values(|e: (String, String)| (e.0@, e.1@))
    }

    /// The value of every tag.
    pub open spec fn view_map(self) -> Map<Seq<char>, Seq<char>> {
        map_of(self.entries())
    }

    /// Every tag that PGN texts list first is set.
    pub open spec fn has_primary_tags(self) -> bool {
        forall|i: int| 0 <= i < primary_tags().len() ==> self.view_map().contains_key(#[trigger] primary_tags()[i])
    }

    #[verifier::type_invariant]
    closed spec fn sorted(self) -> bool {
        forall|i: int, j: int|
            0 <= i < j < self.metadata@.len() ==> text_less(#[trigger] self.metadata@[i].0@, #[trigger] self.metadata@[j].0@)
    }

    /// No tags.
    pub(crate) fn empty() -> (r: Self)
        ensures
            r.entries() == Seq::<(Seq<char>, Seq<char>)>::empty(),
    {
        let r = GameMetadata { metadata: Vec::new() };
        assert(r.entries() =~= Seq::<(Seq<char>, Seq<char>)>::empty());
        r
    }

    /// The number of tags set.
    pub(crate) fn tag_count(&self) -> (r: usize)
        ensures
            r == self.entries().len(),
    {
        self.metadata.len()
    }

    /// The `i`-th tag in the order of the tags, and its value.
    pub(crate) fn tag_at(&self, i: usize) -> (r: (&String, &String))
        requires
            i < self.entries().len(),
        ensures
            r.0@ == self.entries()[i as int].0,
            r.1@ == self.entries()[i as int].1,
    {
        (&self.metadata[i].0, &self.metadata[i].1)
    }

    /// The value of the tag `tag`, if it is set.
    pub fn get_value(&self, tag: String) -> (r: Option<&String>)
        ensures
            r matches Some(v) ==> exists|i: int| 0 <= i < self.entries().len() && self.entries()[i] == (tag@, v@),
            r is None ==> forall|i: int| 0 <= i < self.entries().len() ==> (#[trigger] self.entries()[i]).0 != tag@,
            r matches Some(v) ==> self.view_map().contains_key(tag@) && self.view_map()[tag@] == v@,
            r is None ==> !self.view_map().contains_key(tag@),
    {
        proof {
            use_type_invariant(self);
            let e = self.entries();
            assert forall|a: int, b: int| 0 <= a < b < e.len() implies text_less(#[trigger] e[a].0, #[trigger] e[b].0) by {
                assert(e[a].0 == self.metadata@[a].0@);
                assert(e[b].0 == self.metadata@[b].0@);
            }
            lemma_ordered_unique(e);
        }
        let mut i: usize = 0;
        while i < self.metadata.len()
            invariant
                i <= self.metadata@.len(),
                unique_keys(self.entries()),
                forall|j: int| 0 <= j < i ==> (#[trigger] self.entries()[j]).0 != tag@,
            decreases self.metadata@.len() - i,
        {
            if compare_text(self.metadata[i].0.as_str(), tag.as_str()) == 0 {
                assert(self.entries()[i as int] == (self.metadata@[i as int].0@, self.metadata@[i as int].1@));
                proof {
                    let e = self.entries();
                    let j = choose|j: int| 0 <= j < e.len() && #[trigger] e[j].0 == tag@;
                    if j != i {
                        if j < i {
                            assert(e[j].0 != e[i as int].0);
                        } else {
                            assert(e[i as int].0 != e[j].0);
                        }
                    }
                }
                return Some(&self.metadata[i].1);
            }
            i = i + 1;
        }
        None
    }

    /// Sets the tag `tag` to `value`, adding the tag if it is not set yet.
    pub fn set_value(&mut self, tag: String, value: String)
        ensures
            exists|i: int| 0 <= i < final(self).entries().len() && #[trigger] final(self).entries()[i] == (tag@, value@),
            forall|k: (Seq<char>, Seq<char>)| k.0 != tag@ ==> (final(self).entries().contains(k) <==> old(self).entries().contains(k)),
            forall|k: (Seq<char>, Seq<char>)| #[trigger] final(self).entries().contains(k) && k.0 == tag@ ==> k.1 == value@,
            final(self).view_map() == old(self).view_map().insert(tag@, value@),
    {
        proof {
            use_type_invariant(&*self);
        }
        let ghost old_entries = self.entries();
        proof {
            assert forall|a: int, b: int| 0 <= a < b < old_entries.len() implies text_less(#[trigger] old_entries[a].0, #[trigger] old_entries[b].0) by {
                assert(old_entries[a].0 == self.metadata@[a].0@);
                assert(old_entries[b].0 == self.metadata@[b].0@);
            }
            lemma_ordered_unique(old_entries);
        }
        let mut i: usize = 0;
        let n = self.metadata.len();
        while i < n
            invariant
                i <= n,
                n == self.metadata@.len(),
                old_entries == self.entries(),
                old_entries == old(self).entries(),
                unique_keys(old_entries),
                forall|j: int| 0 <= j < i ==> text_less(#[trigger] self.metadata@[j].0@, tag@),
                forall|a: int, b: int| 0 <= a < b < self.metadata@.len() ==> text_less(#[trigger] self.metadata@[a].0@, #[trigger] self.metadata@[b].0@),
            ensures
                i <= n,
                n == self.metadata@.len(),
                old_entries == self.entries(),
                old_entries == old(self).entries(),
                unique_keys(old_entries),
                forall|j: int| 0 <= j < i ==> text_less(#[trigger] self.metadata@[j].0@, tag@),
                forall|a: int, b: int| 0 <= a < b < self.metadata@.len() ==> text_less(#[trigger] self.metadata@[a].0@, #[trigger] self.metadata@[b].0@),
                i < n ==> text_less(tag@, self.metadata@[i as int].0@),
            decreases n - i,
        {
            let c = compare_text(self.metadata[i].0.as_str(), tag.as_str());
            if c == 0 {
                let mut entries: Vec<(String, String)> = Vec::new();
                std::mem::swap(&mut entries, &mut self.metadata);
                let ghost before = entries@;
                entries.set(i, (tag, value));
                proof {
                    assert forall|a: int, b: int| 0 <= a < b < entries@.len() implies text_less(#[trigger] entries@[a].0@, #[trigger] entries@[b].0@) by {
                        assert(before[a].0@ == entries@[a].0@ || a == i);
                        assert(before[b].0@ == entries@[b].0@ || b == i);
                    }
                }
                self.metadata = entries;
                proof {
                    let e = self.entries();
                    assert(e[i as int] == (tag@, value@));
                    assert(old_entries[i as int].0 == before[i as int].0@);
                    assert(old_entries[i as int].0 == tag@);
                    assert forall|j: int| 0 <= j < e.len() && j != i implies #[trigger] e[j] == old_entries[j] by {
                        assert(e[j] == (entries@[j].0@, entries@[j].1@));
                        assert(old_entries[j] == (before[j].0@, before[j].1@));
                    }
                    assert forall|k: (Seq<char>, Seq<char>)| k.0 != tag@ implies (e.contains(k) <==> old_entries.contains(k)) by {
                        if e.contains(k) {
                            let j = choose|j: int| 0 <= j < e.len() && e[j] == k;
                            assert(old_entries[j] == k);
                        }
                        if old_entries.contains(k) {
                            let j = choose|j: int| 0 <= j < old_entries.len() && old_entries[j] == k;
                            assert(j != i);
                            assert(e[j] == k);
                        }
                    }
                    assert forall|k: (Seq<char>, Seq<char>)| #[trigger] e.contains(k) && k.0 == tag@ implies k.1 == value@ by {
                        let j = choose|j: int| 0 <= j < e.len() && e[j] == k;
                        if j != i {
                            if j < i {
                                assert(text_less(e[j].0, e[i as int].0));
                            } else {
                                assert(text_less(e[i as int].0, e[j].0));
                            }
                            lemma_text_less_irreflexive(tag@);
                        }
                    }
                    assert forall|a: int, b: int| 0 <= a < b < e.len() implies text_less(#[trigger] e[a].0, #[trigger] e[b].0) by {
                        assert(e[a].0 == entries@[a].0@);
                        assert(e[b].0 == entries@[b].0@);
                    }
                    lemma_ordered_unique(e);
                    assert(e.contains((tag@, value@)));
                    lemma_map_of_insert(e, old_entries, tag@, value@);
                    assert(old_entries == old(self).entries());
                    assert(e == final(self).entries());
                }
                return;
            }
            if c > 0 {
                break;
            }
            i = i + 1;
        }
        // every tag before `i` is smaller and every tag from `i` on is greater
        let mut entries: Vec<(String, String)> = Vec::new();
        std::mem::swap(&mut entries, &mut self.metadata);
        let ghost before = entries@;
        proof {
            assert forall|j: int| i <= j < before.len() implies text_less(tag@, #[trigger] before[j].0@) by {
                if i < before.len() {
                    assert(text_less(tag@, before[i as int].0@));
                    if j > i {
                        lemma_text_less_transitive(tag@, before[i as int].0@, before[j].0@);
                    }
                }
            }
        }
        entries.insert(i, (tag, value));
        proof {
            assert forall|a: int, b: int| 0 <= a < b < entries@.len() implies text_less(#[trigger] entries@[a].0@, #[trigger] entries@[b].0@) by {
                if a < i && b > i {
                    lemma_text_less_transitive(before[a].0@, tag@, before[b - 1].0@);
                }
            }
        }
        self.metadata = entries;
        proof {
            let e = self.entries();
            assert(e[i as int] == (tag@, value@));
            assert forall|k: (Seq<char>, Seq<char>)| k.0 != tag@ implies (e.contains(k) <==> old_entries.contains(k)) by {
                if e.contains(k) {
                    let j = choose|j: int| 0 <= j < e.len() && e[j] == k;
                    if j < i {
                        assert(old_entries[j] == k);
                    } else {
                        assert(old_entries[j - 1] == k);
                    }
                }
                if old_entries.contains(k) {
                    let j = choose|j: int| 0 <= j < old_entries.len() && old_entries[j] == k;
                    if j < i {
                        assert(e[j] == k);
                    } else {
                        assert(e[j + 1] == k);
                    }
                }
            }
            assert forall|k: (Seq<char>, Seq<char>)| #[trigger] e.contains(k) && k.0 == tag@ implies k.1 == value@ by {
                let j = choose|j: int| 0 <= j < e.len() && e[j] == k;
                if j < i {
                    assert(text_less(before[j].0@, tag@));
                    lemma_text_less_irreflexive(tag@);
                } else if j > i {
                    assert(text_less(tag@, before[j - 1].0@));
                    lemma_text_less_irreflexive(tag@);
                }
            }
            assert forall|a: int, b: int| 0 <= a < b < e.len() implies text_less(#[trigger] e[a].0, #[trigger] e[b].0) by {
                assert(e[a].0 == entries@[a].0@);
                assert(e[b].0 == entries@[b].0@);
            }
            lemma_ordered_unique(e);
            assert(e.contains((tag@, value@)));
            lemma_map_of_insert(e, old_entries, tag@, value@);
        }
    }
}

/// A tag reads as what was last written to it: after `set_value` of `tag` to `value`,
/// `get_value` of `tag` gives `value`, and every other tag reads as before.
pub proof fn lemma_tag_read_after_write(
    before: GameMetadata,
    after: GameMetadata,
    tag: Seq<char>,
    value: Seq<char>,
    other: Seq<char>,
)
    requires
        after.view_map() == before.view_map().insert(tag, value),
    ensures
        after.view_map().contains_key(tag),
        after.view_map()[tag] == value,
        other != tag ==> after.view_map().contains_key(other) == before.view_map().contains_key(other),
        other != tag && before.view_map().contains_key(other) ==> after.view_map()[other] == before.view_map()[other],
{
}

impl Clone for GameMetadata {
    fn clone(&self) -> (r: Self)
        ensures
            r.entries() == self.entries(),
    {
        proof {
            use_type_invariant(self);
        }
        let mut copy: Vec<(String, String)> = Vec::new();
        let mut i: usize = 0;
        while i < self.metadata.len()
            invariant
                i <= self.metadata@.len(),
                copy@.len() == i,
                forall|j: int| 0 <= j < i ==> #[trigger] copy@[j].0@ == self.metadata@[j].0@ && copy@[j].1@ == self.metadata@[j].1@,
                forall|a: int, b: int| 0 <= a < b < self.metadata@.len() ==> text_less(#[trigger] self.metadata@[a].0@, #[trigger] self.metadata@[b].0@),
            decreases self.metadata@.len() - i,
        {
            let k = copy_str(self.metadata[i].0.as_str());
            let v = copy_str(self.metadata[i].1.as_str());
            copy.push((k, v));
            i = i + 1;
        }
        let r = GameMetadata { metadata: copy };
        assert(r.entries() =~= self.entries());
        r
    }
}

/// A tag name or value as text.
fn text_of(s: &str) -> (r: String)
    ensures
        r@ == s@,
{
    copy_str(s)
}

impl GameMetadata {
    /// The tag `tag` is set to `value`.
    pub open spec fn has_tag(self, tag: Seq<char>, value: Seq<char>) -> bool {
        self.entries().contains((tag, value))
    }

    /// Sets the tag `tag` to `value`.
    fn set_tag(&mut self, tag: &str, value: &str)
        ensures
            final(self).has_tag(tag@, value@),
            forall|k: (Seq<char>, Seq<char>)| k.0 != tag@ ==> (final(self).entries().contains(k) <==> old(self).entries().contains(k)),
            forall|k: (Seq<char>, Seq<char>)| #[trigger] final(self).entries().contains(k) && k.0 == tag@ ==> k.1 == value@,
            final(self).view_map() == old(self).view_map().insert(tag@, value@),
    {
        self.set_value(text_of(tag), text_of(value));
        proof {
            let i = choose|i: int| 0 <= i < self.entries().len() && #[trigger] self.entries()[i] == (tag@, value@);
            assert(self.entries()[i] == (tag@, value@));
        }
    }
}

impl Default for GameMetadata {
    /// The seven tags that PGN texts list first: "?" for the event, site, date, round and
    /// result, "Player 1" and "Player 2" for white and black.
    fn default() -> (r: Self)
        ensures
            r.view_map() == default_tags(),
            r.has_primary_tags(),
    {
        let mut m = GameMetadata::empty();
        assert(m.view_map() =~= Map::<Seq<char>, Seq<char>>::empty());
        m.set_tag("Event", "?");
        m.set_tag("Site", "?");
        m.set_tag("Date", "?");
        m.set_tag("Round", "?");
        m.set_tag("White", "Player 1");
        m.set_tag("Black", "Player 2");
        m.set_tag("Result", "?");
        proof {
            reveal_strlit("Event");
            reveal_strlit("Site");
            reveal_strlit("Date");
            reveal_strlit("Round");
            reveal_strlit("White");
            reveal_strlit("Black");
            reveal_strlit("Result");
            reveal_strlit("?");
            reveal_strlit("Player 1");
            reveal_strlit("Player 2");
            assert("Event"@ == seq!['E', 'v', 'e', 'n', 't']);
            assert("Site"@ == seq!['S', 'i', 't', 'e']);
            assert("Date"@ == seq!['D', 'a', 't', 'e']);
            assert("Round"@ == seq!['R', 'o', 'u', 'n', 'd']);
            assert("White"@ == seq!['W', 'h', 'i', 't', 'e']);
            assert("Black"@ == seq!['B', 'l', 'a', 'c', 'k']);
            assert("Result"@ == seq!['R', 'e', 's', 'u', 'l', 't']);
            assert("?"@ == seq!['?']);
            assert("Player 1"@ == seq!['P', 'l', 'a', 'y', 'e', 'r', ' ', '1']);
            assert("Player 2"@ == seq!['P', 'l', 'a', 'y', 'e', 'r', ' ', '2']);
            assert(m.view_map() =~= default_tags());
            assert forall|i: int| 0 <= i < primary_tags().len() implies m.view_map().contains_key(#[trigger] primary_tags()[i]) by {}
        }
        m
    }
}

/// What a player may do.
#[derive(Debug, Clone, Copy, PartialEq, Eq, Structural)]
pub enum Action {
    MakeMove(BoardMove),
    OfferDraw(Color),
    AcceptDraw,
    DeclineDraw,
    Resign(Color),
}

/// The status of a game; only `Ongoing` and `DrawOffered` let the game go on.
#[derive(Debug, Clone, Copy, PartialEq, Eq, Structural)]
pub enum GameStatus {
    Ongoing,
    DrawOffered(Color),
    CheckMated(Color),
    Resigned(Color),
    FiftyMovesDrawDeclared,
    TheoreticalDrawDeclared,
    RepetitionDrawDeclared,
    DrawAccepted,
    Stalemate,
}

/// The number of positions among `positions` whose hash is `h`.
pub open spec fn occurrences(positions: Seq<ChessBoard>, h: u64) -> int
    decreases positions.len(),
{
    if positions.len() == 0 {
        0
    } else {
        occurrences(positions.drop_last(), h) + if positions.last().hash_spec() == h {
            1int
        } else {
            0int
        }
    }
}

/// The `i`-th move is legal in the `i`-th position and leads to the next one.
pub open spec fn played_step(positions: Seq<ChessBoard>, moves: Seq<BoardMove>, i: int) -> bool {
    positions[i].is_legal_spec(moves[i]) && positions[i + 1].follows(positions[i], moves[i])
}

/// A hash occurs at most as often as there are positions.
pub proof fn lemma_occurrences_bound(positions: Seq<ChessBoard>, h: u64)
    ensures
        0 <= occurrences(positions, h) <= positions.len(),
    decreases positions.len(),
{
    if positions.len() > 0 {
        lemma_occurrences_bound(positions.drop_last(), h);
    }
}

/// The description of a status, such as "white won by checkmate".
pub open spec fn status_text(status: GameStatus) -> Seq<char> {
    match status {
        GameStatus::Ongoing => "the game is ongoing"@,
        GameStatus::DrawOffered(c) => "draw offered by "@ + c.name_spec(),
        GameStatus::CheckMated(c) => c.opposite_spec().name_spec() + " won by checkmate"@,
        GameStatus::Resigned(c) => c.opposite_spec().name_spec() + " won by resignation"@,
        GameStatus::DrawAccepted => "draw declared by agreement"@,
        GameStatus::FiftyMovesDrawDeclared => "draw declared by a 50 moves rule"@,
        GameStatus::TheoreticalDrawDeclared => "draw: no enough pieces"@,
        GameStatus::RepetitionDrawDeclared => "draw declared by moves repetition"@,
        GameStatus::Stalemate => "stalemate"@,
    }
}

impl GameStatus {
    /// The description of the status (see `status_text`).
    pub fn to_string(&self) -> (r: String)
        ensures
            r@ == status_text(*self),
    {
        let mut r = String::new();
        match self {
            GameStatus::Ongoing => push_str(&mut r, "the game is ongoing"),
            GameStatus::DrawOffered(c) => {
                push_str(&mut r, "draw offered by ");
                let name = c.to_string();
                push_str(&mut r, name.as_str());
            },
            GameStatus::CheckMated(c) => {
                let name = c.opposite().to_string();
                push_str(&mut r, name.as_str());
                push_str(&mut r, " won by checkmate");
            },
            GameStatus::Resigned(c) => {
                let name = c.opposite().to_string();
                push_str(&mut r, name.as_str());
                push_str(&mut r, " won by resignation");
            },
            GameStatus::DrawAccepted => push_str(&mut r, "draw declared by agreement"),
            GameStatus::FiftyMovesDrawDeclared => push_str(&mut r, "draw declared by a 50 moves rule"),
            GameStatus::TheoreticalDrawDeclared => push_str(&mut r, "draw: no enough pieces"),
            GameStatus::RepetitionDrawDeclared => push_str(&mut r, "draw declared by moves repetition"),
            GameStatus::Stalemate => push_str(&mut r, "stalemate"),
        }
        r
    }
}

/// The status a game takes from its position, which arose `count` times: the position's own
/// status, or a draw by repetition once an ongoing position arose three times.
pub open spec fn status_of_position(board: ChessBoard, count: int) -> GameStatus {
    match board.status_spec() {
        BoardStatus::CheckMated(c) => GameStatus::CheckMated(c),
        BoardStatus::TheoreticalDrawDeclared => GameStatus::TheoreticalDrawDeclared,
        BoardStatus::Stalemate => GameStatus::Stalemate,
        BoardStatus::FiftyMovesDrawDeclared => GameStatus::FiftyMovesDrawDeclared,
        BoardStatus::Ongoing => if count >= 3 {
            GameStatus::RepetitionDrawDeclared
        } else {
            GameStatus::Ongoing
        },
    }
}

/// The tags of a new game at `board`: the default ones, and the result when the position
/// already ends the game.
pub open spec fn new_game_tags(board: ChessBoard) -> Map<Seq<char>, Seq<char>> {
    let status = status_of_position(board, 0);
    if status == GameStatus::Ongoing {
        default_tags()
    } else {
        default_tags().insert(result_tag(), result_text(status))
    }
}

/// The value of the "Result" tag for a status.
pub open spec fn result_text(status: GameStatus) -> Seq<char> {
    match status {
        GameStatus::Ongoing | GameStatus::DrawOffered(_) => seq!['?'],
        GameStatus::CheckMated(c) | GameStatus::Resigned(c) => if c == Color::White {
            seq!['0', '-', '1']
        } else {
            seq!['1', '-', '0']
        },
        _ => seq!['1', '/', '2', '-', '1', '/', '2'],
    }
}

/// The status after an action other than a move, in a game whose status lets it be taken.
pub open spec fn status_after_action(action: Action) -> GameStatus {
    match action {
        Action::OfferDraw(c) => GameStatus::DrawOffered(c),
        Action::DeclineDraw => GameStatus::Ongoing,
        Action::AcceptDraw => GameStatus::DrawAccepted,
        Action::Resign(c) => GameStatus::Resigned(c),
        Action::MakeMove(_) => GameStatus::Ongoing,
    }
}

/// The error for an action that the status does not allow, if any: moves and draw offers are
/// refused while a draw offer awaits its answer, answers are refused when no draw is offered,
/// and everything is refused once the game is over.
pub open spec fn action_refusal(status: GameStatus, action: Action) -> Option<LibChessError> {
    match status {
        GameStatus::Ongoing => match action {
            Action::AcceptDraw | Action::DeclineDraw => Some(LibChessError::IllegalActionDetected),
            _ => None,
        },
        GameStatus::DrawOffered(_) => match action {
            Action::MakeMove(_) | Action::OfferDraw(_) => Some(LibChessError::IllegalActionDetected),
            _ => None,
        },
        _ => Some(LibChessError::GameIsAlreadyFinished),
    }
}

/// The result tag name.
pub open spec fn result_tag() -> Seq<char> {
    seq!['R', 'e', 's', 'u', 'l', 't']
}

/// A game of chess.
#[derive(Debug)]
pub struct Game {
    position: ChessBoard,
    history: GameHistory,
    unique_positions_counter: BTreeMap<u64, usize>,
    status: GameStatus,
    metadata: GameMetadata,
    hasher: ZobristHasher,
    current_hash: u64,
}

impl Game {
    pub closed spec fn position_spec(self) -> ChessBoard {
        self.position
    }

    pub closed spec fn history_spec(self) -> GameHistory {
        self.history
    }

    pub closed spec fn game_status_spec(self) -> GameStatus {
        self.status
    }

    pub closed spec fn metadata_spec(self) -> GameMetadata {
        self.metadata
    }

    /// How often each position (by its hash) arose.
    pub closed spec fn counts(self) -> Map<u64, usize> {
        self.unique_positions_counter@
    }

    /// How often the position with hash `h` arose.
    pub open spec fn count_of(self, h: u64) -> int {
        if self.counts().contains_key(h) {
            self.counts()[h] as int
        } else {
            0
        }
    }

    /// The history is a chain of legal moves: one position more than moves, each move legal in
    /// the position before it and leading to the position after it, the last position current.
    pub open spec fn history_is_played(self) -> bool {
        let p = self.history_spec().positions_spec();
        let ms = self.history_spec().moves_spec();
        &&& p.len() == ms.len() + 1
        &&& p.last() == self.position_spec()
        &&& forall|i: int| 0 <= i < ms.len() ==> #[trigger] played_step(p, ms, i)
    }

    /// Each position's count is the number of times its hash occurs in the history.
    pub open spec fn counts_match_history(self) -> bool {
        forall|h: u64| #[trigger] self.count_of(h) == occurrences(self.history_spec().positions_spec(), h)
    }

    /// The kept hash is that of the current position, at least one position is recorded, no count
    /// exceeds their number, and the primary tags are set.
    closed spec fn bounded(self) -> bool {
        &&& self.current_hash == self.position.hash_spec()
        &&& self.history.positions_spec().len() >= 1
        &&& forall|h: u64| #[trigger] self.counts().contains_key(h) ==> self.counts()[h] <= self.history.positions_spec().len()
        &&& self.metadata.has_primary_tags()
    }

    /// A game as its operations keep it: the history is a chain of legal moves that ends at the
    /// current position, each position's count is the number of times it occurs in the history,
    /// and the primary tags are set.
    pub closed spec fn wf(self) -> bool {
        &&& self.bounded()
        &&& self.history_is_played()
        &&& self.counts_match_history()
    }

    /// Sets the status, and the "Result" tag when the status changes.
    fn set_game_status(&mut self, status: GameStatus)
        ensures
            final(self).game_status_spec() == status,
            final(self).position_spec() == old(self).position_spec(),
            final(self).history_spec() == old(self).history_spec(),
            final(self).counts() == old(self).counts(),
            status != old(self).game_status_spec() ==> final(self).metadata_spec().has_tag(result_tag(), result_text(status)),
            status != old(self).game_status_spec() ==> forall|k: (Seq<char>, Seq<char>)| k.0 != result_tag() ==> (
                final(self).metadata_spec().entries().contains(k) <==> old(self).metadata_spec().entries().contains(k)),
            status != old(self).game_status_spec() ==> final(self).metadata_spec().view_map() == old(self).metadata_spec().view_map().insert(result_tag(), result_text(status)),
            status == old(self).game_status_spec() ==> final(self).metadata_spec() == old(self).metadata_spec(),
            old(self).bounded() ==> final(self).bounded(),
            old(self).wf() ==> final(self).wf(),
    {
        if status != self.status {
            proof {
                reveal_strlit("Result");
                reveal_strlit("?");
                reveal_strlit("0-1");
                reveal_strlit("1-0");
                reveal_strlit("1/2-1/2");
                assert("Result"@ == result_tag());
            }
            let value = match status {
                GameStatus::Ongoing | GameStatus::DrawOffered(_) => "?",
                GameStatus::CheckMated(c) | GameStatus::Resigned(c) => match c {
                    Color::White => "0-1",
                    Color::Black => "1-0",
                },
                _ => "1/2-1/2",
            };
            proof {
                assert(value@ == result_text(status));
            }
            self.metadata.set_tag("Result", value);
            self.status = status;
        }
        proof {
            if old(self).bounded() {
                assert(self.history == old(self).history);
                assert(self.counts() == old(self).counts());
                assert forall|h: u64| #[trigger] self.counts().contains_key(h) implies self.counts()[h] <= self.history.positions_spec().len() by {
                    assert(old(self).counts().contains_key(h));
                }
                assert forall|i: int| 0 <= i < primary_tags().len() implies self.metadata.view_map().contains_key(#[trigger] primary_tags()[i]) by {
                    assert(old(self).metadata.view_map().contains_key(primary_tags()[i]));
                }
            }
            if old(self).wf() {
                Self::lemma_same_record(*old(self), *self);
            }
        }
    }

    /// A game that keeps the position, history and counts of a well-formed game, with its own
    /// bounds, is well-formed.
    proof fn lemma_same_record(a: Game, b: Game)
        requires
            a.wf(),
            b.bounded(),
            a.position_spec() == b.position_spec(),
            a.history_spec().positions_spec() == b.history_spec().positions_spec(),
            a.history_spec().moves_spec() == b.history_spec().moves_spec(),
            a.counts() == b.counts(),
        ensures
            b.wf(),
    {
        assert forall|h: u64| #[trigger] b.count_of(h) == occurrences(b.history_spec().positions_spec(), h) by {
            assert(a.count_of(h) == occurrences(a.history_spec().positions_spec(), h));
        }
        let p = b.history_spec().positions_spec();
        let ms = b.history_spec().moves_spec();
        assert forall|i: int| 0 <= i < ms.len() implies #[trigger] played_step(p, ms, i) by {
            assert(played_step(a.history_spec().positions_spec(), a.history_spec().moves_spec(), i));
        }
    }

    /// Sets the tag `tag` to `value`.
    pub(crate) fn set_tag_value(&mut self, tag: String, value: String)
        requires
            old(self).wf(),
        ensures
            final(self).wf(),
            final(self).metadata_spec().view_map() == old(self).metadata_spec().view_map().insert(tag@, value@),
            final(self).position_spec() == old(self).position_spec(),
            final(self).history_spec() == old(self).history_spec(),
            final(self).counts() == old(self).counts(),
            final(self).game_status_spec() == old(self).game_status_spec(),
    {
        self.metadata.set_value(tag, value);
        proof {
            assert forall|h: u64| #[trigger] self.counts().contains_key(h) implies self.counts()[h] <= self.history.positions_spec().len() by {
                assert(old(self).counts().contains_key(h));
            }
            assert forall|i: int| 0 <= i < primary_tags().len() implies self.metadata.view_map().contains_key(#[trigger] primary_tags()[i]) by {
                assert(old(self).metadata.view_map().contains_key(primary_tags()[i]));
            }
            Self::lemma_same_record(*old(self), *self);
        }
    }

    /// How often the position `position` arose in this game.
    pub fn get_position_counter(&self, position: ChessBoard) -> (r: usize)
        ensures
            r == self.count_of(position.hash_spec()),
    {
        match self.unique_positions_counter.get(&self.hasher.calculate_position_hash(&position)) {
            Some(c) => *c,
            None => 0,
        }
    }

    /// Counts one more arrival of the current position.
    fn position_counter_increment(&mut self)
        requires
            old(self).count_of(old(self).position_spec().hash_spec()) < usize::MAX,
            old(self).current_hash == old(self).position.hash_spec(),
        ensures
            final(self).counts() == old(self).counts().insert(
                old(self).position_spec().hash_spec(),
                (old(self).count_of(old(self).position_spec().hash_spec()) + 1) as usize,
            ),
            final(self).position_spec() == old(self).position_spec(),
            final(self).history_spec() == old(self).history_spec(),
            final(self).game_status_spec() == old(self).game_status_spec(),
            final(self).metadata_spec() == old(self).metadata_spec(),
            final(self).current_hash == old(self).current_hash,
    {
        let h = self.current_hash;
        let c = self.get_position_counter(self.position);
        self.unique_positions_counter.insert(h, c + 1);
    }

    /// The status from the current position (see `status_of_position`).
    fn status_from_position(&self) -> (r: GameStatus)
        ensures
            r == status_of_position(self.position_spec(), self.count_of(self.position_spec().hash_spec())),
    {
        match self.position.get_status() {
            BoardStatus::CheckMated(c) => GameStatus::CheckMated(c),
            BoardStatus::TheoreticalDrawDeclared => GameStatus::TheoreticalDrawDeclared,
            BoardStatus::Stalemate => GameStatus::Stalemate,
            BoardStatus::FiftyMovesDrawDeclared => GameStatus::FiftyMovesDrawDeclared,
            BoardStatus::Ongoing => {
                if self.get_position_counter(self.position) >= 3 {
                    GameStatus::RepetitionDrawDeclared
                } else {
                    GameStatus::Ongoing
                }
            },
        }
    }

    /// A game that starts at `board`: the position counted once, the default tags, and the
    /// status the position gives.
    pub fn from_board(board: ChessBoard) -> (r: Self)
        ensures
            r.wf(),
            r.position_spec() == board,
            r.history_spec().positions_spec() == seq![board],
            r.history_spec().moves_spec() == Seq::<BoardMove>::empty(),
            r.counts() == Map::<u64, usize>::empty().insert(board.hash_spec(), 1),
            r.game_status_spec() == status_of_position(board, 0),
            r.metadata_spec().view_map() == new_game_tags(board),
            r.history_is_played(),
            r.counts_match_history(),
    {
        let hasher = ZobristHasher::new();
        let current_hash = hasher.calculate_position_hash(&board);
        let mut result = Game {
            position: board,
            history: GameHistory::from_position(board),
            unique_positions_counter: BTreeMap::new(),
            status: GameStatus::Ongoing,
            metadata: GameMetadata::default(),
            hasher,
            current_hash,
        };
        let status = result.status_from_position();
        result.set_game_status(status);
        result.position_counter_increment();
        proof {
            assert(result.counts() =~= Map::<u64, usize>::empty().insert(board.hash_spec(), 1));
            let p = result.history_spec().positions_spec();
            assert(p.drop_last() =~= Seq::<ChessBoard>::empty());
            assert forall|h: u64| #[trigger] result.count_of(h) == occurrences(p, h) by {
                assert(occurrences(p.drop_last(), h) == 0);
            }
        }
        result
    }

    /// A game that starts at the position a FEN text describes (see `ChessBoard::from_fen`).
    pub fn from_fen(fen: &str) -> (r: Result<Self, LibChessError>)
        requires
            !crate::board_builders::fen_unreadable(fen@),
        ensures
            !crate::board_builders::fen_accepts(fen@) ==> (r matches Err(e) && e matches LibChessError::InvalidFENString { s } && s@ == fen@),
            crate::board_builders::fen_accepts(fen@) ==> exists|b: crate::board_builders::BoardBuilder| #[trigger] crate::board_builders::fen_describes(fen@, b) && match crate::chess_boards::builder_error(b) {
                Some(e) => r == Err::<Self, LibChessError>(e),
                None => r matches Ok(g) && g.wf() && crate::chess_boards::board_of_builder(g.position_spec(), b)
                    && g.game_status_spec() == status_of_position(g.position_spec(), 0),
            },
    {
        match ChessBoard::from_fen(fen) {
            Ok(board) => Ok(Game::from_board(board)),
            Err(e) => Err(e),
        }
    }

    /// The FEN text of the current position.
    pub fn as_fen(&self) -> (r: String)
        ensures
            r@ == crate::board_builders::board_fen(self.position_spec()),
    {
        self.position.as_fen()
    }

    /// The tags of the game.
    pub fn get_metadata(&self) -> (r: &GameMetadata)
        ensures
            *r == self.metadata_spec(),
            self.wf() ==> r.has_primary_tags(),
    {
        &self.metadata
    }

    /// The tags of the game, to change them.
    pub fn get_metadata_mut(&mut self) -> (r: &mut GameMetadata)
        ensures
            *r == old(self).metadata_spec(),
            final(self).metadata_spec() == *final(r),
            final(self).position_spec() == old(self).position_spec(),
            final(self).history_spec() == old(self).history_spec(),
            final(self).counts() == old(self).counts(),
            final(self).game_status_spec() == old(self).game_status_spec(),
    {
        &mut self.metadata
    }

    /// The positions and moves of the game.
    pub fn get_action_history(&self) -> (r: &GameHistory)
        ensures
            *r == self.history_spec(),
    {
        &self.history
    }

    /// The current position, to change it.
    pub fn get_position_mut(&mut self) -> (r: &mut ChessBoard)
        ensures
            *r == old(self).position_spec(),
            final(self).position_spec() == *final(r),
            final(self).metadata_spec() == old(self).metadata_spec(),
            final(self).history_spec() == old(self).history_spec(),
            final(self).counts() == old(self).counts(),
            final(self).game_status_spec() == old(self).game_status_spec(),
    {
        &mut self.position
    }

    /// The current position.
    pub fn get_position(&self) -> (r: ChessBoard)
        ensures
            r == self.position_spec(),
    {
        self.position
    }

    /// The status of the game.
    pub fn get_game_status(&self) -> (r: GameStatus)
        ensures
            r == self.game_status_spec(),
    {
        self.status
    }

    /// The side to move.
    pub fn get_side_to_move(&self) -> (r: Color)
        ensures
            r == self.position_spec().side(),
    {
        self.position.get_side_to_move()
    }

    /// The moves allowed in the current position.
    pub fn get_legal_moves(&self) -> (r: LegalMoves)
        ensures
            r@.no_duplicates(),
            crate::movegen::in_key_order(r@),
            forall|mv: BoardMove| r@.contains(mv) <==> #[trigger] self.position_spec().is_legal_spec(mv),
    {
        self.position.get_legal_moves()
    }

    /// The move number of the current position.
    pub fn get_move_number(&self) -> (r: usize)
        ensures
            r == self.position_spec().fullmoves(),
    {
        self.position.get_move_number()
    }

    /// Moves made since the last capture or pawn move.
    pub fn get_moves_since_capture_or_pawn_move(&self) -> (r: usize)
        ensures
            r == self.position_spec().halfmoves(),
    {
        self.position.get_moves_since_capture_or_pawn_move()
    }

    /// What taking `action` in `self` gives, the game `next` and the answer `r`: a move (which
    /// must be legal), a draw offer, an answer to a draw offer, or a resignation, as far as the
    /// status allows it. A refused action leaves the game unchanged; a change of status sets the
    /// "Result" tag, and no other tag changes.
    pub open spec fn takes(self, action: Action, next: Game, r: Result<(), LibChessError>) -> bool {
        &&& action_refusal(self.game_status_spec(), action) matches Some(e) ==> r == Err::<(), LibChessError>(e) && next == self
        &&& action_refusal(self.game_status_spec(), action) is None ==> match action {
            Action::MakeMove(m) => if self.position_spec().is_legal_spec(m) {
                let p = next.position_spec();
                let h = p.hash_spec();
                &&& r is Ok
                &&& p.follows(self.position_spec(), m)
                &&& next.history_spec().positions_spec() == self.history_spec().positions_spec().push(p)
                &&& next.history_spec().moves_spec() == self.history_spec().moves_spec().push(m)
                &&& next.counts() == self.counts().insert(h, (self.count_of(h) + 1) as usize)
                &&& next.game_status_spec() == status_of_position(p, self.count_of(h) + 1)
            } else {
                r == Err::<(), LibChessError>(LibChessError::IllegalActionDetected) && next == self
            },
            _ => {
                &&& r is Ok
                &&& next.game_status_spec() == status_after_action(action)
                &&& next.position_spec() == self.position_spec()
                &&& next.history_spec() == self.history_spec()
                &&& next.counts() == self.counts()
            },
        }
        &&& r is Ok && next.game_status_spec() != self.game_status_spec() ==> next.metadata_spec().view_map() == self.metadata_spec().view_map().insert(result_tag(), result_text(next.game_status_spec()))
        &&& r is Ok && next.game_status_spec() == self.game_status_spec() ==> next.metadata_spec() == self.metadata_spec()
    }

    /// Whether taking `action` plays a move on the board: the status allows it and the move is
    /// legal in the current position.
    pub open spec fn plays_move(self, action: Action) -> bool {
        &&& action_refusal(self.game_status_spec(), action) is None
        &&& match action {
            Action::MakeMove(m) => self.position_spec().is_legal_spec(m),
            _ => false,
        }
    }

    /// Takes the action `action` (see `takes`), and hands the game back.
    pub fn make_move(&mut self, action: Action) -> (r: Result<&mut Self, LibChessError>)
        requires
            old(self).wf(),
            old(self).plays_move(action) ==> old(self).position_spec().halfmoves() < usize::MAX,
            old(self).plays_move(action) ==> old(self).position_spec().fullmoves() < usize::MAX,
        ensures
            match r {
                Ok(g) => old(self).takes(action, *g, Ok(())) && (*g).wf() && *final(self) == *final(g),
                Err(e) => old(self).takes(action, *final(self), Err(e)) && final(self).wf(),
            },
    {
        match self.take_action(action) {
            Ok(()) => Ok(self),
            Err(e) => Err(e),
        }
    }

    /// Takes the action `action` (see `takes`).
    pub(crate) fn take_action(&mut self, action: Action) -> (r: Result<(), LibChessError>)
        requires
            old(self).wf(),
            old(self).plays_move(action) ==> old(self).position_spec().halfmoves() < usize::MAX,
            old(self).plays_move(action) ==> old(self).position_spec().fullmoves() < usize::MAX,
        ensures
            final(self).wf(),
            old(self).takes(action, *final(self), r),
    {
        let ghost before = *self;
        let r = self.apply_action(action);
        proof {
            lemma_action_keeps_counts(before, action, *self, r);
            lemma_action_keeps_history_played(before, action, *self, r);
        }
        r
    }

    /// Takes the action `action`; the counts stay bounded by the history.
    fn apply_action(&mut self, action: Action) -> (r: Result<(), LibChessError>)
        requires
            old(self).wf(),
            old(self).plays_move(action) ==> old(self).position_spec().halfmoves() < usize::MAX,
            old(self).plays_move(action) ==> old(self).position_spec().fullmoves() < usize::MAX,
        ensures
            final(self).bounded(),
            old(self).takes(action, *final(self), r),
    {
        match self.status {
            GameStatus::Ongoing => {
                match action {
                    Action::AcceptDraw | Action::DeclineDraw => {
                        return Err(LibChessError::IllegalActionDetected);
                    },
                    _ => {},
                }
            },
            GameStatus::DrawOffered(_) => {
                match action {
                    Action::MakeMove(_) | Action::OfferDraw(_) => {
                        return Err(LibChessError::IllegalActionDetected);
                    },
                    _ => {},
                }
            },
            _ => {
                return Err(LibChessError::GameIsAlreadyFinished);
            },
        }
        match action {
            Action::MakeMove(m) => {
                if !self.position.is_legal_move(&m) {
                    return Err(LibChessError::IllegalActionDetected);
                }
                let next = match self.position.make_move(&m) {
                    Ok(b) => b,
                    Err(_) => return Err(LibChessError::IllegalActionDetected),
                };
                let h = self.position.hash_after_move(&self.hasher, self.current_hash, &m, &next);
                self.position = next;
                self.current_hash = h;
                self.history.push(m, next);
                let n = self.history.get_positions().len();
                proof {
                    assert(self.count_of(next.hash_spec()) <= n - 1);
                }
                self.position_counter_increment();
                let status = self.status_from_position();
                self.set_game_status(status);
                proof {
                    assert forall|h: u64| #[trigger] self.counts().contains_key(h) implies self.counts()[h] <= self.history.positions_spec().len() by {}
                }
            },
            _ => {
                let status = match action {
                    Action::OfferDraw(c) => GameStatus::DrawOffered(c),
                    Action::DeclineDraw => GameStatus::Ongoing,
                    Action::AcceptDraw => GameStatus::DrawAccepted,
                    Action::Resign(c) => GameStatus::Resigned(c),
                    Action::MakeMove(_) => GameStatus::Ongoing,
                };
                self.set_game_status(status);
            },
        }
        Ok(())
    }
}

/// Whatever action is taken, the history stays a chain of legal moves that ends at the
/// current position.
pub proof fn lemma_action_keeps_history_played(g: Game, action: Action, next: Game, r: Result<(), LibChessError>)
    requires
        g.takes(action, next, r),
        g.history_is_played(),
    ensures
        next.history_is_played(),
{
    let p = g.history_spec().positions_spec();
    let ms = g.history_spec().moves_spec();
    let p2 = next.history_spec().positions_spec();
    let ms2 = next.history_spec().moves_spec();
    match action_refusal(g.game_status_spec(), action) {
        Some(e) => {
            assert(next == g);
        },
        None => {
            match action {
                Action::MakeMove(m) => {
                    if g.position_spec().is_legal_spec(m) {
                        assert(p2 == p.push(next.position_spec()));
                        assert(ms2 == ms.push(m));
                        assert(next.position_spec().follows(g.position_spec(), m));
                        assert forall|i: int| 0 <= i < ms2.len() implies #[trigger] played_step(p2, ms2, i) by {
                            if i < ms.len() {
                                assert(p2[i] == p[i]);
                                assert(p2[i + 1] == p[i + 1]);
                                assert(ms2[i] == ms[i]);
                                assert(played_step(p, ms, i));
                            } else {
                                assert(i == ms.len());
                                assert(p2[i] == p.last());
                                assert(p2[i + 1] == next.position_spec());
                                assert(ms2[i] == m);
                            }
                        }
                    } else {
                        assert(next == g);
                    }
                },
                _ => {
                    assert(next.history_spec() == g.history_spec());
                    assert(next.position_spec() == g.position_spec());
                },
            }
        },
    }
}

/// A finished game stays as it is: every action is refused with `GameIsAlreadyFinished` and
/// changes nothing.
pub proof fn lemma_finished_game_refuses(g: Game, action: Action, next: Game, r: Result<(), LibChessError>)
    requires
        g.takes(action, next, r),
        !(g.game_status_spec() is Ongoing || g.game_status_spec() is DrawOffered),
    ensures
        r == Err::<(), LibChessError>(LibChessError::GameIsAlreadyFinished),
        next == g,
{
}

/// Whatever action is taken, the count of each position stays the number of times it occurs in
/// the history: repetitions are counted exactly.
pub proof fn lemma_action_keeps_counts(g: Game, action: Action, next: Game, r: Result<(), LibChessError>)
    requires
        g.takes(action, next, r),
        g.counts_match_history(),
    ensures
        next.counts_match_history(),
{
    let p = g.history_spec().positions_spec();
    let p2 = next.history_spec().positions_spec();
    match action_refusal(g.game_status_spec(), action) {
        Some(e) => {
            assert(next == g);
        },
        None => {
            match action {
                Action::MakeMove(m) => {
                    if g.position_spec().is_legal_spec(m) {
                        let hn = next.position_spec().hash_spec();
                        assert(p2 == p.push(next.position_spec()));
                        next.history_spec().lemma_positions_bound();
                        lemma_occurrences_bound(p, hn);
                        assert(g.count_of(hn) == occurrences(p, hn));
                        assert(next.counts() == g.counts().insert(hn, (g.count_of(hn) + 1) as usize));
                        assert(p2.drop_last() =~= p);
                        assert(p2.last() == next.position_spec());
                        assert forall|h: u64| #[trigger] next.count_of(h) == occurrences(p2, h) by {
                            assert(g.count_of(h) == occurrences(p, h));
                            assert(occurrences(p2, h) == occurrences(p, h) + if hn == h { 1int } else { 0int });
                        }
                    } else {
                        assert(next == g);
                    }
                },
                _ => {
                    assert(next.history_spec() == g.history_spec());
                    assert(next.counts() == g.counts());
                    assert forall|h: u64| #[trigger] next.count_of(h) == occurrences(p2, h) by {
                        assert(g.count_of(h) == occurrences(p, h));
                    }
                },
            }
        },
    }
}

impl Clone for Game {
    /// A copy of the game.
    fn clone(&self) -> (r: Self)
        ensures
            r.position_spec() == self.position_spec(),
            r.history_spec().positions_spec() == self.history_spec().positions_spec(),
            r.history_spec().moves_spec() == self.history_spec().moves_spec(),
            r.counts() == self.counts(),
            r.game_status_spec() == self.game_status_spec(),
            r.metadata_spec().entries() == self.metadata_spec().entries(),
            self.wf() ==> r.wf(),
    {
        let r = Game {
            position: self.position,
            history: self.history.clone(),
            unique_positions_counter: self.unique_positions_counter.clone(),
            status: self.status,
            metadata: self.metadata.clone(),
            hasher: self.hasher.clone(),
            current_hash: self.current_hash,
        };
        proof {
            if self.wf() {
                assert(r.metadata.view_map() == self.metadata.view_map());
                assert forall|h: u64| #[trigger] r.counts().contains_key(h) implies r.counts()[h] <= r.history.positions_spec().len() by {
                    assert(self.counts().contains_key(h));
                }
                assert forall|i: int| 0 <= i < primary_tags().len() implies r.metadata.view_map().contains_key(#[trigger] primary_tags()[i]) by {
                    assert(self.metadata.view_map().contains_key(primary_tags()[i]));
                }
                Game::lemma_same_record(*self, r);
            }
        }
        r
    }
}

impl Default for Game {
    /// A game from the starting position.
    fn default() -> (r: Self)
        ensures
            r.wf(),
            crate::chess_boards::is_start_position(r.position_spec()),
            r.game_status_spec() == status_of_position(r.position_spec(), 0),
            r.history_spec().positions_spec() == seq![r.position_spec()],
            r.history_spec().moves_spec() == Seq::<BoardMove>::empty(),
            r.counts() == Map::<u64, usize>::empty().insert(r.position_spec().hash_spec(), 1),
            r.metadata_spec().view_map() == new_game_tags(r.position_spec()),
            r.history_is_played(),
            r.counts_match_history(),
    {
        Game::from_board(ChessBoard::default())
    }
}

} // verus!
