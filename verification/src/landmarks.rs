//! Named pixel landmarks: a small association from landmark name to pixel
//! coordinate, kept sorted by name so that every walk over it is
//! deterministic and depends only on which landmarks are filed, never on
//! the order they were filed in.

use vstd::prelude::*;
use vstd::string::StrSliceExecFns;

verus! {

/// One named pixel coordinate.
pub struct Landmark {
    pub name: String,
    pub x: usize,
    pub y: usize,
}

/// Strict lexicographic order on names, by code point.
pub open spec fn lex_lt(a: Seq<char>, b: Seq<char>) -> bool
    decreases a.len(),
{
    if b.len() == 0 {
        false
    } else if a.len() == 0 {
        true
    } else if a[0] == b[0] {
        lex_lt(a.drop_first(), b.drop_first())
    } else {
        (a[0] as u32) < (b[0] as u32)
    }
}

/// No name precedes itself.
pub proof fn lemma_lex_irreflexive(a: Seq<char>)
    ensures
        !lex_lt(a, a),
    decreases a.len(),
{
    if a.len() > 0 {
        lemma_lex_irreflexive(a.drop_first());
    }
}

/// Two names cannot each precede the other.
pub proof fn lemma_lex_asymmetric(a: Seq<char>, b: Seq<char>)
    requires
        lex_lt(a, b),
    ensures
        !lex_lt(b, a),
    decreases a.len(),
{
    if a.len() > 0 && b.len() > 0 && a[0] == b[0] {
        lemma_lex_asymmetric(a.drop_first(), b.drop_first());
    }
}

/// Of two distinct names, one precedes the other.
pub proof fn lemma_lex_total(a: Seq<char>, b: Seq<char>)
    requires
        a != b,
    ensures
        lex_lt(a, b) || lex_lt(b, a),
    decreases a.len(),
{
    if a.len() == 0 && b.len() == 0 {
        assert(a =~= b);
    } else if a.len() > 0 && b.len() > 0 && a[0] == b[0] {
        if a.drop_first() == b.drop_first() {
            assert(a.drop_first().len() == a.len() - 1);
            assert(b.drop_first().len() == b.len() - 1);
            assert(a.len() == b.len());
            assert forall|x: int| 0 <= x < a.len() implies a[x] == b[x] by {
                if x > 0 {
                    assert(a.drop_first()[x - 1] == a[x]);
                    assert(b.drop_first()[x - 1] == b[x]);
                }
            }
            assert(a =~= b);
        } else {
            lemma_lex_total(a.drop_first(), b.drop_first());
        }
    } else if a.len() > 0 && b.len() > 0 {
        let ca = a[0];
        let cb = b[0];
        if ca as u32 == cb as u32 {
            vstd::utf8::char_u32_cast(ca, ca as u32);
            vstd::utf8::char_u32_cast(cb, cb as u32);
            assert(ca == cb);
        }
    }
}

/// The order chains: a name before a second, itself before a third, comes
/// before the third.
pub proof fn lemma_lex_transitive(a: Seq<char>, b: Seq<char>, c: Seq<char>)
    requires
        lex_lt(a, b),
        lex_lt(b, c),
    ensures
        lex_lt(a, c),
    decreases a.len(),
{
    if a.len() > 0 && b.len() > 0 && c.len() > 0 {
        if a[0] == b[0] && b[0] == c[0] {
            lemma_lex_transitive(a.drop_first(), b.drop_first(), c.drop_first());
        }
    }
}

/// Whether each String of one name precedes the other, decided character by
/// character.
pub fn str_lt(a: &String, b: &String) -> (r: bool)
    ensures
        r == lex_lt(a@, b@),
{
    let an = a.as_str().unicode_len();
    let bn = b.as_str().unicode_len();
    let mut i: usize = 0;
    while i < an && i < bn
        invariant
            i <= an,
            i <= bn,
            an == a@.len(),
            bn == b@.len(),
            forall|j: int| 0 <= j < i ==> a@[j] == b@[j],
        decreases an - i,
    {
        let ca = a.as_str().get_char(i);
        let cb = b.as_str().get_char(i);
        if ca != cb {
            proof {
                lemma_lex_skips_common_prefix(a@, b@, i as int);
                assert(a@.skip(i as int)[0] == a@[i as int]);
                assert(b@.skip(i as int)[0] == b@[i as int]);
            }
            return (ca as u32) < (cb as u32);
        }
        i += 1;
    }
    proof {
        lemma_lex_skips_common_prefix(a@, b@, i as int);
        assert(a@.skip(i as int).len() == an - i);
        assert(b@.skip(i as int).len() == bn - i);
        if i < bn {
            assert(lex_lt(a@.skip(i as int), b@.skip(i as int)));
        } else {
            assert(!lex_lt(a@.skip(i as int), b@.skip(i as int)));
        }
    }
    an < bn
}

/// Dropping a shared prefix does not change which name precedes the other.
proof fn lemma_lex_skips_common_prefix(a: Seq<char>, b: Seq<char>, i: int)
    requires
        0 <= i <= a.len(),
        i <= b.len(),
        forall|j: int| 0 <= j < i ==> a[j] == b[j],
    ensures
        lex_lt(a, b) == lex_lt(a.skip(i), b.skip(i)),
    decreases i,
{
    if i > 0 {
        lemma_lex_skips_common_prefix(a, b, i - 1);
        let ta = a.skip(i - 1);
        let tb = b.skip(i - 1);
        assert(ta[0] == a[i - 1]);
        assert(tb[0] == b[i - 1]);
        assert(ta[0] == tb[0]);
        assert(ta.drop_first() =~= a.skip(i));
        assert(tb.drop_first() =~= b.skip(i));
        assert(lex_lt(ta, tb) == lex_lt(ta.drop_first(), tb.drop_first()));
    } else {
        assert(a.skip(0) =~= a);
        assert(b.skip(0) =~= b);
    }
}

/// Names stand in strictly ascending order.
pub open spec fn sorted_names(s: Seq<Seq<char>>) -> bool {
    forall|i: int, j: int| 0 <= i < j < s.len() ==> lex_lt(#[trigger] s[i], #[trigger] s[j])
}

/// Strictly ascending names are pairwise distinct.
pub proof fn lemma_sorted_names_unique(s: Seq<Seq<char>>)
    requires
        sorted_names(s),
    ensures
        forall|i: int, j: int| 0 <= i < j < s.len() ==> s[i] != s[j],
{
    assert forall|i: int, j: int| 0 <= i < j < s.len() implies s[i] != s[j] by {
        lemma_lex_irreflexive(s[i]);
    }
}

/// Two strictly ascending name lists holding the same set of names are the
/// same list: the order makes the representation canonical.
pub proof fn lemma_sorted_names_canonical(s: Seq<Seq<char>>, t: Seq<Seq<char>>)
    requires
        sorted_names(s),
        sorted_names(t),
        s.to_set() == t.to_set(),
    ensures
        s == t,
    decreases s.len(),
{
    if s.len() == 0 {
        if t.len() > 0 {
            assert(t.to_set().contains(t[0]));
            assert(s.contains(t[0]));
        }
        assert(s =~= t);
    } else {
        assert(s.to_set().contains(s[0]));
        assert(t.contains(s[0]));
        if t.len() == 0 {
            assert(t.to_set().contains(s[0]));
        }
        assert(t.to_set().contains(t[0]));
        assert(s.contains(t[0]));
        let j = choose|j: int| 0 <= j < t.len() && t[j] == s[0];
        let k = choose|k: int| 0 <= k < s.len() && s[k] == t[0];
        if j > 0 && k > 0 {
            assert(lex_lt(t[0], t[j]));
            assert(lex_lt(s[0], s[k]));
            lemma_lex_asymmetric(t[0], s[0]);
        }
        assert(s[0] == t[0]);
        let sd = s.drop_first();
        let td = t.drop_first();
        assert forall|m: Seq<char>| sd.to_set().contains(m) implies td.to_set().contains(m) by {
            let i = choose|i: int| 0 <= i < sd.len() && sd[i] == m;
            assert(s[i + 1] == m);
            assert(lex_lt(s[0], m));
            assert(s.to_set().contains(m));
            assert(t.contains(m));
            let jj = choose|jj: int| 0 <= jj < t.len() && t[jj] == m;
            lemma_lex_irreflexive(m);
            assert(jj != 0);
            assert(td[jj - 1] == m);
        }
        assert forall|m: Seq<char>| td.to_set().contains(m) implies sd.to_set().contains(m) by {
            let i = choose|i: int| 0 <= i < td.len() && td[i] == m;
            assert(t[i + 1] == m);
            assert(lex_lt(t[0], m));
            assert(t.to_set().contains(m));
            assert(s.contains(m));
            let jj = choose|jj: int| 0 <= jj < s.len() && s[jj] == m;
            lemma_lex_irreflexive(m);
            assert(jj != 0);
            assert(sd[jj - 1] == m);
        }
        assert(sd.to_set() =~= td.to_set());
        assert forall|p: int, q: int| 0 <= p < q < sd.len() implies lex_lt(sd[p], sd[q]) by {
            assert(sd[p] == s[p + 1]);
            assert(sd[q] == s[q + 1]);
        }
        assert forall|p: int, q: int| 0 <= p < q < td.len() implies lex_lt(td[p], td[q]) by {
            assert(td[p] == t[p + 1]);
            assert(td[q] == t[q + 1]);
        }
        lemma_sorted_names_canonical(sd, td);
        assert(sd.len() == s.len() - 1);
        assert(td.len() == t.len() - 1);
        assert(s.len() == t.len());
        assert forall|x: int| 0 <= x < s.len() implies s[x] == t[x] by {
            if x > 0 {
                assert(sd[x - 1] == s[x]);
                assert(td[x - 1] == t[x]);
            }
        }
        assert(s =~= t);
    }
}

/// The first entry of `s` whose name reads `n`, if any.
pub open spec fn find_in(s: Seq<Landmark>, n: Seq<char>) -> Option<Landmark>
    decreases s.len(),
{
    if s.len() == 0 {
        None
    } else if s[0].name@ == n {
        Some(s[0])
    } else {
        find_in(s.drop_first(), n)
    }
}

/// A set of named pixel landmarks with unique names, kept sorted by name.
pub struct Landmarks {
    entries: Vec<Landmark>,
}

impl Landmarks {
    /// The entries, in ascending name order.
    pub closed spec fn entries(self) -> Seq<Landmark> {
        self.entries@
    }

    /// The landmark names, in ascending order.
    pub open spec fn names(self) -> Seq<Seq<char>> {
        self.entries().map_values(|l: Landmark| l.name@)
    }

    /// Names stand in strictly ascending order (so they are unique, and the
    /// whole entry list is determined by which landmarks are filed).
    pub open spec fn wf(self) -> bool {
        sorted_names(self.names())
    }

    /// The coordinate filed under `n`, if any.
    pub open spec fn spec_get(self, n: Seq<char>) -> Option<(usize, usize)> {
        match find_in(self.entries(), n) {
            Some(l) => Some((l.x, l.y)),
            None => None,
        }
    }

    /// An empty landmark set.
    pub fn new() -> (r: Landmarks)
        ensures
            r.entries() == Seq::<Landmark>::empty(),
            r.wf(),
    {
        Landmarks { entries: Vec::new() }
    }

    /// How many landmarks are filed.
    pub fn len(&self) -> (r: usize)
        ensures
            r == self.entries().len(),
    {
        self.entries.len()
    }

    /// The entry at `i`, in ascending name order.
    pub fn entry_at(&self, i: usize) -> (r: &Landmark)
        requires
            i < self.entries().len(),
        ensures
            *r == self.entries()[i as int],
    {
        &self.entries[i]
    }

    /// Whether a landmark of that name is filed.
    pub fn contains_name(&self, name: &String) -> (r: bool)
        ensures
            r == self.names().contains(name@),
    {
        let n = self.entries.len();
        let mut i: usize = 0;
        while i < n
            invariant
                i <= n,
                n == self.entries().len(),
                forall|j: int| 0 <= j < i ==> self.entries()[j].name@ != name@,
            decreases n - i,
        {
            if self.entries[i].name == *name {
                assert(self.names()[i as int] == name@);
                return true;
            }
            i += 1;
        }
        assert(forall|j: int| 0 <= j < self.names().len() ==> self.names()[j] != name@);
        false
    }

    /// The coordinate filed under `name`, if any.
    pub fn get(&self, name: &String) -> (r: Option<(usize, usize)>)
        ensures
            r == self.spec_get(name@),
    {
        let n = self.entries.len();
        let mut i: usize = 0;
        while i < n
            invariant
                i <= n,
                n == self.entries().len(),
                forall|j: int| 0 <= j < i ==> self.entries()[j].name@ != name@,
            decreases n - i,
        {
            if self.entries[i].name == *name {
                proof {
                    lemma_find_skips_mismatches(self.entries(), name@, i as int);
                }
                let l = &self.entries[i];
                return Some((l.x, l.y));
            }
            i += 1;
        }
        proof {
            lemma_find_skips_mismatches(self.entries(), name@, n as int);
        }
        None
    }

    /// The first position whose name does not precede `name`.
    fn lower_bound(&self, name: &String) -> (i: usize)
        ensures
            i <= self.entries().len(),
            forall|j: int| 0 <= j < i ==> lex_lt(self.entries()[j].name@, name@),
            i < self.entries().len() ==> !lex_lt(self.entries()[i as int].name@, name@),
    {
        let n = self.entries.len();
        let mut i: usize = 0;
        while i < n
            invariant
                i <= n,
                n == self.entries().len(),
                forall|j: int| 0 <= j < i ==> lex_lt(self.entries()[j].name@, name@),
            decreases n - i,
        {
            if !str_lt(&self.entries[i].name, name) {
                return i;
            }
            i += 1;
        }
        n
    }

    /// Files `(x, y)` under `name`: replaces the coordinate when the name is
    /// already filed, adds the entry at its place in the name order when it
    /// is not.
    pub fn insert(&mut self, name: String, x: usize, y: usize)
        requires
            old(self).wf(),
        ensures
            final(self).wf(),
            final(self).spec_get(name@) == Some((x, y)),
            forall|m: Seq<char>| m != name@ ==> final(self).spec_get(m) == old(self).spec_get(m),
            final(self).names().to_set() == old(self).names().to_set().insert(name@),
    {
        proof {
            lemma_sorted_names_unique(old(self).names());
        }
        let i = self.lower_bound(&name);
        let n = self.entries.len();
        if i < n && self.entries[i].name == name {
            proof {
                assert forall|j: int| 0 <= j < i implies self.entries()[j].name@ != name@ by {
                    lemma_lex_irreflexive(name@);
                }
                lemma_find_skips_mismatches(self.entries(), name@, i as int);
            }
            let ghost before = self.entries();
            self.entries.set(i, Landmark { name, x, y });
            proof {
                assert forall|j: int, k: int|
                    0 <= j < k < before.len() implies before[j].name@ != before[k].name@ by {
                    assert(old(self).names()[j] == before[j].name@);
                    assert(old(self).names()[k] == before[k].name@);
                }
                lemma_update_entry(before, self.entries(), i as int, x, y);
                assert(self.names() =~= old(self).names());
                assert(old(self).names()[i as int] == name@);
                assert(old(self).names().contains(name@));
                assert(self.names().to_set() =~= old(self).names().to_set().insert(name@));
            }
        } else {
            proof {
                lemma_fresh_at_position(self.entries(), name@, i as int);
            }
            let ghost before = self.entries();
            self.entries.insert(i, Landmark { name, x, y });
            proof {
                let after = self.entries();
                before.insert_ensures(i as int, after[i as int]);
                assert(after[i as int].name@ == name@);
                lemma_insert_entry(before, after, i as int, x, y);
                assert(self.names() =~= old(self).names().insert(i as int, name@));
                lemma_inserted_names(old(self).names(), self.names(), i as int);
            }
        }
    }
}

/// At the position `lower_bound` reports for a name that is not filed, the
/// name differs from every entry's and follows every earlier entry's.
proof fn lemma_fresh_at_position(s: Seq<Landmark>, n: Seq<char>, i: int)
    requires
        0 <= i <= s.len(),
        sorted_names(s.map_values(|l: Landmark| l.name@)),
        forall|j: int| 0 <= j < i ==> lex_lt(s[j].name@, n),
        i < s.len() ==> !lex_lt(s[i].name@, n) && s[i].name@ != n,
    ensures
        forall|j: int| 0 <= j < s.len() ==> s[j].name@ != n,
        forall|j: int| i <= j < s.len() ==> lex_lt(n, s[j].name@),
{
    let names = s.map_values(|l: Landmark| l.name@);
    assert forall|j: int| i <= j < s.len() implies lex_lt(n, s[j].name@) by {
        if j == i {
            lemma_lex_total(s[i].name@, n);
        } else {
            lemma_lex_total(s[i].name@, n);
            assert(names[i] == s[i].name@);
            assert(names[j] == s[j].name@);
            assert(lex_lt(s[i].name@, s[j].name@));
            lemma_lex_transitive(n, s[i].name@, s[j].name@);
        }
    }
    assert forall|j: int| 0 <= j < s.len() implies s[j].name@ != n by {
        if j < i {
            lemma_lex_irreflexive(n);
        } else {
            lemma_lex_irreflexive(n);
        }
    }
}

/// Adding an entry with a fresh name at its place in the name order keeps
/// the order, keeps every other lookup, and files the new coordinate.
proof fn lemma_insert_entry(before: Seq<Landmark>, after: Seq<Landmark>, i: int, x: usize, y: usize)
    requires
        0 <= i <= before.len(),
        after == before.insert(i, after[i]),
        after[i].x == x,
        after[i].y == y,
        sorted_names(before.map_values(|l: Landmark| l.name@)),
        forall|j: int| 0 <= j < before.len() ==> before[j].name@ != after[i].name@,
        forall|j: int| 0 <= j < i ==> lex_lt(before[j].name@, after[i].name@),
        forall|j: int| i <= j < before.len() ==> lex_lt(after[i].name@, before[j].name@),
    ensures
        sorted_names(after.map_values(|l: Landmark| l.name@)),
        find_in(after, after[i].name@) == Some(after[i]),
        forall|m: Seq<char>|
            m != after[i].name@ ==> find_in(after, m) == find_in(before, m),
{
    let bnames = before.map_values(|l: Landmark| l.name@);
    let anames = after.map_values(|l: Landmark| l.name@);
    before.insert_ensures(i, after[i]);
    assert(after.len() == before.len() + 1);
    assert(forall|j: int| 0 <= j < i ==> #[trigger] after[j] == before[j]);
    assert forall|j: int| i < j < after.len() implies #[trigger] after[j] == before[j - 1] by {
        assert(before.insert(i, after[i])[j - 1 + 1] == before[j - 1]);
    }
    assert forall|j: int, k: int| 0 <= j < k < anames.len() implies lex_lt(
        anames[j],
        anames[k],
    ) by {
        assert(anames[j] == after[j].name@);
        assert(anames[k] == after[k].name@);
        if j < i && k < i {
            assert(bnames[j] == before[j].name@);
            assert(bnames[k] == before[k].name@);
        } else if j < i && k == i {
        } else if j == i {
            assert(after[k].name@ == before[k - 1].name@);
        } else if j < i && k > i {
            assert(bnames[j] == before[j].name@);
            assert(bnames[k - 1] == before[k - 1].name@);
        } else {
            assert(bnames[j - 1] == before[j - 1].name@);
            assert(bnames[k - 1] == before[k - 1].name@);
        }
    }
    assert forall|j: int| 0 <= j < i implies after[j].name@ != after[i].name@ by {
        assert(after[j] == before[j]);
    }
    lemma_find_skips_mismatches(after, after[i].name@, i);
    assert(after.skip(i)[0] == after[i]);
    assert forall|m: Seq<char>| m != after[i].name@ implies find_in(after, m) == find_in(
        before,
        m,
    ) by {
        lemma_find_skips_inserted(before, after, i, m);
    }
}

/// A lookup that cannot match the inserted entry reads the same answer from
/// the list with and without it.
#[verifier::rlimit(20)]
proof fn lemma_find_skips_inserted(before: Seq<Landmark>, after: Seq<Landmark>, i: int, m: Seq<
    char,
>)
    requires
        0 <= i <= before.len(),
        after == before.insert(i, after[i]),
        after[i].name@ != m,
    ensures
        find_in(after, m) == find_in(before, m),
    decreases i,
{
    before.insert_ensures(i, after[i]);
    assert(after.len() == before.len() + 1);
    if i == 0 {
        assert(after[0].name@ != m);
        assert(after.drop_first() =~= before);
    } else {
        assert(after[0] == before[0]);
        if before[0].name@ == m {
        } else {
            let b1 = before.drop_first();
            let a1 = after.drop_first();
            b1.insert_ensures(i - 1, after[i]);
            assert(a1 =~= b1.insert(i - 1, after[i]));
            assert(a1[i - 1] == after[i]);
            lemma_find_skips_inserted(b1, a1, i - 1, m);
        }
    }
}

/// The names of a list with one entry inserted are the old names with that
/// entry's name inserted, so as a set they are the old names plus the new
/// one.
proof fn lemma_inserted_names(bnames: Seq<Seq<char>>, anames: Seq<Seq<char>>, i: int)
    requires
        0 <= i <= bnames.len(),
        anames == bnames.insert(i, anames[i]),
    ensures
        anames.to_set() == bnames.to_set().insert(anames[i]),
{
    bnames.insert_ensures(i, anames[i]);
    assert(anames.len() == bnames.len() + 1);
    assert forall|m: Seq<char>| anames.to_set().contains(m) implies bnames.to_set().insert(
        anames[i],
    ).contains(m) by {
        let j = choose|j: int| 0 <= j < anames.len() && anames[j] == m;
        if j != i {
            if j < i {
                assert(bnames[j] == m);
            } else {
                assert(bnames[j - 1] == m);
            }
            assert(bnames.contains(m));
        }
    }
    assert forall|m: Seq<char>| bnames.to_set().insert(anames[i]).contains(m) implies anames.to_set().contains(
        m,
    ) by {
        if m == anames[i] {
            assert(anames.contains(m));
        } else {
            let j = choose|j: int| 0 <= j < bnames.len() && bnames[j] == m;
            if j < i {
                assert(anames[j] == m);
            } else {
                assert(anames[j + 1] == m);
            }
            assert(anames.contains(m));
        }
    }
    assert(anames.to_set() =~= bnames.to_set().insert(anames[i]));
}

/// Skipping entries whose name does not match leaves the first match
/// unchanged.
proof fn lemma_find_skips_mismatches(s: Seq<Landmark>, n: Seq<char>, i: int)
    requires
        0 <= i <= s.len(),
        forall|j: int| 0 <= j < i ==> s[j].name@ != n,
    ensures
        find_in(s, n) == find_in(s.skip(i), n),
    decreases i,
{
    if i > 0 {
        lemma_find_skips_mismatches(s, n, i - 1);
        let t = s.skip(i - 1);
        assert(t.len() > 0);
        assert(t[0] == s[i - 1]);
        assert(t[0].name@ != n);
        assert(t.drop_first() =~= s.skip(i));
        assert(find_in(t, n) == find_in(t.drop_first(), n));
    } else {
        assert(s.skip(0) =~= s);
    }
}

/// Replacing the entry at the first index whose name matches keeps every
/// lookup of another name, and every lookup of that name now yields the new
/// coordinate.
proof fn lemma_update_entry(before: Seq<Landmark>, after: Seq<Landmark>, i: int, x: usize, y: usize)
    requires
        0 <= i < before.len(),
        after.len() == before.len(),
        after[i].name@ == before[i].name@,
        after[i].x == x,
        after[i].y == y,
        forall|j: int| 0 <= j < before.len() && j != i ==> after[j] == before[j],
        forall|j: int, k: int|
            0 <= j < k < before.len() ==> before[j].name@ != before[k].name@,
    ensures
        forall|j: int, k: int| 0 <= j < k < after.len() ==> after[j].name@ != after[k].name@,
        find_in(after, after[i].name@) == Some(after[i]),
        forall|m: Seq<char>|
            m != after[i].name@ ==> find_in(after, m) == find_in(before, m),
{
    assert forall|j: int, k: int| 0 <= j < k < after.len() implies after[j].name@
        != after[k].name@ by {
        assert(after[j].name@ == before[j].name@);
        assert(after[k].name@ == before[k].name@);
    }
    lemma_find_skips_mismatches(after, after[i].name@, i);
    assert(after.skip(i)[0] == after[i]);
    assert forall|m: Seq<char>| m != after[i].name@ implies find_in(after, m) == find_in(
        before,
        m,
    ) by {
        lemma_find_same_names(before, after, m);
    }
}

/// Two entry lists that agree entry by entry wherever a name could match
/// agree on every lookup of that name.
proof fn lemma_find_same_names(a: Seq<Landmark>, b: Seq<Landmark>, m: Seq<char>)
    requires
        a.len() == b.len(),
        forall|j: int| 0 <= j < a.len() ==> a[j].name@ == b[j].name@,
        forall|j: int| 0 <= j < a.len() && a[j].name@ == m ==> a[j] == b[j],
    ensures
        find_in(b, m) == find_in(a, m),
    decreases a.len(),
{
    if a.len() > 0 {
        if a[0].name@ == m {
        } else {
            assert(forall|j: int|
                0 <= j < a.drop_first().len() ==> a.drop_first()[j].name@ == b.drop_first()[j].name@);
            lemma_find_same_names(a.drop_first(), b.drop_first(), m);
        }
    }
}

/// A lookup succeeds exactly when the name occurs in the name list.
pub proof fn lemma_get_some_iff_contains(lm: Landmarks, n: Seq<char>)
    ensures
        (lm.spec_get(n) is Some) == lm.names().contains(n),
{
    lemma_find_contains(lm.entries(), n);
}

/// `find_in` succeeds exactly when the name occurs among the entries' names.
proof fn lemma_find_contains(s: Seq<Landmark>, n: Seq<char>)
    ensures
        (find_in(s, n) is Some) == s.map_values(|l: Landmark| l.name@).contains(n),
    decreases s.len(),
{
    let names = s.map_values(|l: Landmark| l.name@);
    if s.len() == 0 {
    } else if s[0].name@ == n {
        assert(names[0] == n);
    } else {
        lemma_find_contains(s.drop_first(), n);
        let names1 = s.drop_first().map_values(|l: Landmark| l.name@);
        assert(names1 =~= names.drop_first());
        if names.contains(n) {
            let i = choose|i: int| 0 <= i < names.len() && names[i] == n;
            assert(i != 0);
            assert(names1[i - 1] == n);
            assert(names1.contains(n));
        }
        if names1.contains(n) {
            let j = choose|j: int| 0 <= j < names1.len() && names1[j] == n;
            assert(names[j + 1] == n);
            assert(names.contains(n));
        }
    }
}

} // verus!
