//! Design-space coordinates, locations, and the persisted converter form.
//!
//! A normalized coordinate is an `i32` scaled by 16384 and confined to
//! [-16384, 16384] (the value in [-1, 1] times the F2Dot14 scale). An axis
//! tag is its four-character text. A [`Location`] maps axis tags to
//! normalized coordinates, kept strictly sorted by tag so that equal
//! locations have equal representations and iteration order is canonical.

use vstd::prelude::*;

verus! {

/// One location entry as contracts see it: tag text and scaled coordinate.
pub type EntryView = (Seq<char>, i32);

/// A location as contracts see it: entries in strictly increasing tag order.
pub type LocView = Seq<EntryView>;

/// A normalized coordinate is confined to the scaled [-1, 1] range.
pub open spec fn wf_coord(c: i32) -> bool {
    -16384 <= c <= 16384
}

/// Lexicographic order on character sequences, by character code; a strict
/// prefix comes first. This is the order of the tags' byte representations.
pub open spec fn chars_lt(a: Seq<char>, b: Seq<char>) -> bool
    decreases a.len(),
{
    if b.len() == 0 {
        false
    } else if a.len() == 0 {
        true
    } else if a[0] != b[0] {
        (a[0] as int) < (b[0] as int)
    } else {
        chars_lt(a.skip(1), b.skip(1))
    }
}

/// Order on location entries: by tag, then by coordinate.
pub open spec fn entry_lt(x: EntryView, y: EntryView) -> bool {
    chars_lt(x.0, y.0) || (x.0 == y.0 && x.1 < y.1)
}

/// Lexicographic order on locations, entry by entry: the canonical total
/// order an ordered map over tags would give.
pub open spec fn entries_lt(a: LocView, b: LocView) -> bool
    decreases a.len(),
{
    if b.len() == 0 {
        false
    } else if a.len() == 0 {
        true
    } else if a[0] != b[0] {
        entry_lt(a[0], b[0])
    } else {
        entries_lt(a.skip(1), b.skip(1))
    }
}

pub proof fn lemma_chars_lt_trichotomy(a: Seq<char>, b: Seq<char>)
    ensures
        chars_lt(a, b) || chars_lt(b, a) || a == b,
        chars_lt(a, b) ==> !chars_lt(b, a) && a != b,
    decreases a.len(),
{
    if a.len() != 0 && b.len() != 0 && a[0] == b[0] {
        lemma_chars_lt_trichotomy(a.skip(1), b.skip(1));
        if a.skip(1) == b.skip(1) {
            assert forall|i: int| 0 <= i < a.len() implies a[i] == b[i] by {
                if i > 0 {
                    assert(a.skip(1)[i - 1] == a[i]);
                    assert(b.skip(1)[i - 1] == b[i]);
                }
            }
            assert(a =~= b);
        }
        if a == b {
            assert(a.skip(1) =~= b.skip(1));
        }
    } else {
        if a.len() == 0 && b.len() == 0 {
            assert(a =~= b);
        } else if a.len() != 0 && b.len() != 0 {
            assert((a[0] as int) != (b[0] as int));
        }
    }
}

pub proof fn lemma_entry_lt_trichotomy(x: EntryView, y: EntryView)
    ensures
        entry_lt(x, y) || entry_lt(y, x) || x == y,
        entry_lt(x, y) ==> !entry_lt(y, x) && x != y,
{
    lemma_chars_lt_trichotomy(x.0, y.0);
}

pub proof fn lemma_entries_lt_trichotomy(a: LocView, b: LocView)
    ensures
        entries_lt(a, b) || entries_lt(b, a) || a == b,
        entries_lt(a, b) ==> !entries_lt(b, a) && a != b,
    decreases a.len(),
{
    if a.len() != 0 && b.len() != 0 && a[0] == b[0] {
        lemma_entries_lt_trichotomy(a.skip(1), b.skip(1));
        if a.skip(1) == b.skip(1) {
            assert forall|i: int| 0 <= i < a.len() implies a[i] == b[i] by {
                if i > 0 {
                    assert(a.skip(1)[i - 1] == a[i]);
                    assert(b.skip(1)[i - 1] == b[i]);
                }
            }
            assert(a =~= b);
        }
        if a == b {
            assert(a.skip(1) =~= b.skip(1));
        }
    } else {
        if a.len() == 0 && b.len() == 0 {
            assert(a =~= b);
        } else if a.len() != 0 && b.len() != 0 {
            lemma_entry_lt_trichotomy(a[0], b[0]);
        }
    }
}

/// Compares two strings in the lexicographic character order.
pub fn str_lt(a: &str, b: &str) -> (r: bool)
    ensures
        r == chars_lt(a@, b@),
{
    let alen = a.unicode_len();
    let blen = b.unicode_len();
    proof {
        assert(a@.skip(0) =~= a@);
        assert(b@.skip(0) =~= b@);
    }
    let mut i: usize = 0;
    loop
        invariant
            i <= alen,
            i <= blen,
            alen == a@.len(),
            blen == b@.len(),
            forall|j: int| 0 <= j < i ==> a@[j] == b@[j],
            chars_lt(a@, b@) == chars_lt(a@.skip(i as int), b@.skip(i as int)),
        ensures
            i >= alen || i >= blen,
        decreases alen - i,
    {
        if i >= alen || i >= blen {
            break ;
        }
        let ca = a.get_char(i);
        let cb = b.get_char(i);
        if ca != cb {
            proof {
                assert(a@.skip(i as int)[0] == a@[i as int]);
                assert(b@.skip(i as int)[0] == b@[i as int]);
            }
            return ca < cb;
        }
        proof {
            assert(a@.skip(i as int).skip(1) =~= a@.skip(i as int + 1));
            assert(b@.skip(i as int).skip(1) =~= b@.skip(i as int + 1));
            assert(a@.skip(i as int)[0] == b@.skip(i as int)[0]);
        }
        i = i + 1;
    }
    alen < blen
}

/// Decides whether two strings hold the same characters.
pub fn str_eq(a: &str, b: &str) -> (r: bool)
    ensures
        r == (a@ == b@),
{
    let alen = a.unicode_len();
    let blen = b.unicode_len();
    if alen != blen {
        return false;
    }
    let mut i: usize = 0;
    loop
        invariant
            i <= alen,
            alen == a@.len(),
            blen == b@.len(),
            alen == blen,
            forall|j: int| 0 <= j < i ==> a@[j] == b@[j],
        ensures
            i >= alen,
        decreases alen - i,
    {
        if i >= alen {
            break ;
        }
        let ca = a.get_char(i);
        let cb = b.get_char(i);
        if ca != cb {
            return false;
        }
        i = i + 1;
    }
    proof {
        assert(a@ =~= b@);
    }
    true
}

/// A point in the design space: per-axis normalized coordinates, the entries
/// strictly sorted by tag. Axes absent from the mapping sit at their default.
#[derive(Debug)]
pub struct Location {
    pub entries: Vec<(String, i32)>,
}

impl View for Location {
    type V = LocView;

    open spec fn view(&self) -> LocView {
        Seq::new(self.entries@.len(), |i: int| (self.entries@[i].0@, self.entries@[i].1))
    }
}

/// Strictly increasing tags and in-range coordinates.
pub open spec fn wf_loc(l: LocView) -> bool {
    &&& forall|i: int, j: int| 0 <= i < j < l.len() ==> chars_lt(#[trigger] l[i].0, #[trigger] l[j].0)
    &&& forall|i: int| 0 <= i < l.len() ==> wf_coord(#[trigger] l[i].1)
}

impl Location {
    /// The location with no entry: every axis at its default.
    pub fn new() -> (r: Location)
        ensures
            r@ =~= Seq::<EntryView>::empty(),
    {
        Location { entries: Vec::new() }
    }

    pub open spec fn wf(&self) -> bool {
        wf_loc(self@)
    }

    /// A structural copy whose view is the same.
    pub fn duplicate(&self) -> (r: Location)
        ensures
            r@ == self@,
    {
        let mut entries: Vec<(String, i32)> = Vec::new();
        let n = self.entries.len();
        let mut i: usize = 0;
        while i < n
            invariant
                i <= n,
                n == self.entries@.len(),
                entries@.len() == i,
                forall|j: int|
                    0 <= j < i ==> #[trigger] entries@[j].0@ == self.entries@[j].0@
                        && entries@[j].1 == self.entries@[j].1,
            decreases n - i,
        {
            let tag = self.entries[i].0.clone();
            let coord = self.entries[i].1;
            entries.push((tag, coord));
            i = i + 1;
        }
        let r = Location { entries };
        proof {
            assert(r@ =~= self@);
        }
        r
    }

    /// Compares against another location in the canonical order.
    pub fn lt(&self, other: &Location) -> (r: bool)
        ensures
            r == entries_lt(self@, other@),
    {
        let n1 = self.entries.len();
        let n2 = other.entries.len();
        proof {
            assert(self@.skip(0) =~= self@);
            assert(other@.skip(0) =~= other@);
        }
        let mut i: usize = 0;
        loop
            invariant
                i <= n1,
                i <= n2,
                n1 == self@.len(),
                n2 == other@.len(),
                forall|j: int| 0 <= j < i ==> self@[j] == other@[j],
                entries_lt(self@, other@) == entries_lt(
                    self@.skip(i as int),
                    other@.skip(i as int),
                ),
            ensures
                i >= n1 || i >= n2,
            decreases n1 - i,
        {
            if i >= n1 || i >= n2 {
                break ;
            }
            let (t1, c1) = &self.entries[i];
            let (t2, c2) = &other.entries[i];
            proof {
                assert(self@.skip(i as int)[0] == self@[i as int]);
                assert(other@.skip(i as int)[0] == other@[i as int]);
            }
            if !str_eq(t1.as_str(), t2.as_str()) {
                proof {
                    assert(self@[i as int].0 != other@[i as int].0);
                }
                return str_lt(t1.as_str(), t2.as_str());
            }
            if *c1 != *c2 {
                proof {
                    lemma_chars_lt_trichotomy(t1@, t2@);
                    assert(self@[i as int] != other@[i as int]);
                    assert(entry_lt(self@[i as int], other@[i as int]) == (*c1 < *c2));
                }
                return *c1 < *c2;
            }
            proof {
                assert(self@.skip(i as int).skip(1) =~= self@.skip(i as int + 1));
                assert(other@.skip(i as int).skip(1) =~= other@.skip(i as int + 1));
            }
            i = i + 1;
        }
        n1 < n2
    }

    /// Decides view equality with another location.
    pub fn eq_loc(&self, other: &Location) -> (r: bool)
        ensures
            r == (self@ == other@),
    {
        let n1 = self.entries.len();
        let n2 = other.entries.len();
        if n1 != n2 {
            proof {
                assert(self@.len() != other@.len());
            }
            return false;
        }
        let mut i: usize = 0;
        loop
            invariant
                i <= n1,
                n1 == self@.len(),
                n2 == other@.len(),
                n1 == n2,
                forall|j: int| 0 <= j < i ==> self@[j] == other@[j],
            ensures
                i >= n1,
            decreases n1 - i,
        {
            if i >= n1 {
                break ;
            }
            let (t1, c1) = &self.entries[i];
            let (t2, c2) = &other.entries[i];
            if !str_eq(t1.as_str(), t2.as_str()) || *c1 != *c2 {
                proof {
                    assert(self@[i as int] != other@[i as int]);
                }
                return false;
            }
            i = i + 1;
        }
        proof {
            assert(self@ =~= other@);
        }
        true
    }
}

/// A monotonic user-to-design coordinate mapping, given by example pairs and
/// the index of the pair holding the axis default. Coordinates are held in
/// fixed point as plain integers.
pub struct CoordConverter {
    pub user_to_design: Vec<(i64, i64)>,
    pub default_idx: usize,
}

/// The persisted form of a [`CoordConverter`]: the default example index and
/// the ordered (user, design) pairs.
pub struct CoordConverterSerdeRepr {
    pub default_idx: usize,
    pub user_to_design: Vec<(i64, i64)>,
}

/// What serializing a converter yields.
pub open spec fn converter_to_repr_spec(c: CoordConverter) -> CoordConverterSerdeRepr {
    CoordConverterSerdeRepr { default_idx: c.default_idx, user_to_design: c.user_to_design }
}

/// What deserializing a converter representation yields.
pub open spec fn converter_from_repr_spec(r: CoordConverterSerdeRepr) -> CoordConverter {
    CoordConverter { user_to_design: r.user_to_design, default_idx: r.default_idx }
}

impl CoordConverter {
    /// Rebuilds a converter from its persisted form.
    pub fn from(repr: CoordConverterSerdeRepr) -> (r: CoordConverter)
        ensures
            r == converter_from_repr_spec(repr),
    {
        CoordConverter { user_to_design: repr.user_to_design, default_idx: repr.default_idx }
    }
}

impl CoordConverterSerdeRepr {
    /// The persisted form of a converter.
    pub fn from(c: CoordConverter) -> (r: CoordConverterSerdeRepr)
        ensures
            r == converter_to_repr_spec(c),
    {
        CoordConverterSerdeRepr { default_idx: c.default_idx, user_to_design: c.user_to_design }
    }
}

/// Serializing then deserializing a coordinate converter reproduces it.
pub proof fn lemma_converter_round_trip(c: CoordConverter)
    ensures
        converter_from_repr_spec(converter_to_repr_spec(c)) == c,
{
}

/// The persisted form of a [`Location`]: its (tag, coordinate) pairs in
/// order.
pub struct LocationSerdeRepr(pub Vec<(String, i32)>);

impl View for LocationSerdeRepr {
    type V = LocView;

    open spec fn view(&self) -> LocView {
        Seq::new(self.0@.len(), |i: int| (self.0@[i].0@, self.0@[i].1))
    }
}

impl LocationSerdeRepr {
    /// The persisted form of a location: its entries as they stand.
    pub fn from(l: Location) -> (r: LocationSerdeRepr)
        ensures
            r@ == l@,
    {
        let r = LocationSerdeRepr(l.entries);
        proof {
            assert(r@ =~= Seq::new(r.0@.len(), |i: int| (r.0@[i].0@, r.0@[i].1)));
        }
        r
    }
}

/// Insertion of one entry into a tag-sorted entry list: an entry with the
/// same tag is replaced, as rebuilding an ordered map from pairs would do.
pub open spec fn entry_insert(s: Seq<EntryView>, e: EntryView) -> Seq<EntryView>
    decreases s.len(),
{
    if s.len() == 0 {
        seq![e]
    } else if e.0 == s[0].0 {
        seq![e] + s.skip(1)
    } else if chars_lt(e.0, s[0].0) {
        seq![e] + s
    } else {
        seq![s[0]] + entry_insert(s.skip(1), e)
    }
}

/// The location that rebuilding from an entry list yields: the entries
/// folded into an empty location in order, later tags overriding earlier
/// equal ones.
pub open spec fn loc_from_entries_from(acc: LocView, rest: Seq<EntryView>) -> LocView
    decreases rest.len(),
{
    if rest.len() == 0 {
        acc
    } else {
        loc_from_entries_from(entry_insert(acc, rest[0]), rest.skip(1))
    }
}

/// The location a persisted entry list denotes.
pub open spec fn loc_from_entries(s: Seq<EntryView>) -> LocView {
    loc_from_entries_from(Seq::empty(), s)
}

/// Strictly increasing tags alone (the ordering half of [`wf_loc`]).
pub open spec fn loc_tags_sorted(l: LocView) -> bool {
    forall|i: int, j: int| 0 <= i < j < l.len() ==> chars_lt(#[trigger] l[i].0, #[trigger] l[j].0)
}

proof fn lemma_entry_insert_append(s: Seq<EntryView>, e: EntryView)
    requires
        forall|k: int| 0 <= k < s.len() ==> chars_lt(#[trigger] s[k].0, e.0),
    ensures
        entry_insert(s, e) == s + seq![e],
    decreases s.len(),
{
    if s.len() == 0 {
        assert(entry_insert(s, e) =~= s + seq![e]);
    } else {
        lemma_chars_lt_trichotomy(s[0].0, e.0);
        assert forall|k: int| 0 <= k < s.skip(1).len() implies chars_lt(
            #[trigger] s.skip(1)[k].0,
            e.0,
        ) by {
            assert(s.skip(1)[k] == s[k + 1]);
        }
        lemma_entry_insert_append(s.skip(1), e);
        assert(entry_insert(s, e) == seq![s[0]] + (s.skip(1) + seq![e]));
        assert(seq![s[0]] + (s.skip(1) + seq![e]) =~= s + seq![e]);
    }
}

proof fn lemma_loc_fold_sorted(acc: LocView, rest: Seq<EntryView>)
    requires
        loc_tags_sorted(acc + rest),
    ensures
        loc_from_entries_from(acc, rest) == acc + rest,
    decreases rest.len(),
{
    if rest.len() == 0 {
        assert(acc + rest =~= acc);
    } else {
        let e = rest[0];
        assert forall|k: int| 0 <= k < acc.len() implies chars_lt(#[trigger] acc[k].0, e.0) by {
            assert((acc + rest)[k] == acc[k]);
            assert((acc + rest)[acc.len() as int] == e);
        }
        lemma_entry_insert_append(acc, e);
        let acc2 = acc + seq![e];
        assert(acc2 + rest.skip(1) =~= acc + rest);
        lemma_loc_fold_sorted(acc2, rest.skip(1));
    }
}

/// Deserializing the persisted form of a well-ordered location reproduces
/// its entries exactly.
pub proof fn lemma_location_round_trip(l: LocView)
    requires
        loc_tags_sorted(l),
    ensures
        loc_from_entries(l) == l,
{
    assert(Seq::<EntryView>::empty() + l =~= l);
    lemma_loc_fold_sorted(Seq::empty(), l);
}

proof fn lemma_entry_insert_split(s: Seq<EntryView>, e: EntryView, i: int)
    requires
        loc_tags_sorted(s),
        0 <= i <= s.len(),
        forall|j: int| 0 <= j < i ==> chars_lt(#[trigger] s[j].0, e.0),
        i < s.len() ==> !chars_lt(s[i].0, e.0),
    ensures
        i < s.len() && s[i].0 == e.0 ==> entry_insert(s, e) == s.update(i, e),
        !(i < s.len() && s[i].0 == e.0) ==> entry_insert(s, e) =~= s.subrange(0, i) + seq![e]
            + s.subrange(i, s.len() as int),
    decreases s.len(),
{
    if s.len() == 0 {
        assert(entry_insert(s, e) =~= s.subrange(0, i) + seq![e] + s.subrange(i, 0));
    } else if i == 0 {
        if s[0].0 == e.0 {
            assert(entry_insert(s, e) == seq![e] + s.skip(1));
            assert(seq![e] + s.skip(1) =~= s.update(0, e));
        } else {
            lemma_chars_lt_trichotomy(e.0, s[0].0);
            assert(chars_lt(e.0, s[0].0));
            assert(entry_insert(s, e) == seq![e] + s);
            assert(seq![e] + s =~= s.subrange(0, 0) + seq![e] + s.subrange(0, s.len() as int));
        }
    } else {
        assert(chars_lt(s[0].0, e.0));
        lemma_chars_lt_trichotomy(s[0].0, e.0);
        let t = s.skip(1);
        assert(loc_tags_sorted(t)) by {
            assert forall|p: int, q: int| 0 <= p < q < t.len() implies chars_lt(
                t[p].0,
                t[q].0,
            ) by {
                assert(s[p + 1] == t[p]);
                assert(s[q + 1] == t[q]);
            }
        }
        assert forall|j: int| 0 <= j < i - 1 implies chars_lt(#[trigger] t[j].0, e.0) by {
            assert(s[j + 1] == t[j]);
        }
        assert(i - 1 < t.len() ==> !chars_lt(t[i - 1].0, e.0)) by {
            if i - 1 < t.len() {
                assert(t[i - 1] == s[i]);
            }
        }
        lemma_entry_insert_split(t, e, i - 1);
        assert(entry_insert(s, e) == seq![s[0]] + entry_insert(t, e));
        if i < s.len() && s[i].0 == e.0 {
            assert(t[i - 1] == s[i]);
            assert(entry_insert(t, e) == t.update(i - 1, e));
            assert(seq![s[0]] + t.update(i - 1, e) =~= s.update(i, e));
        } else {
            assert(entry_insert(t, e) =~= t.subrange(0, i - 1) + seq![e] + t.subrange(
                i - 1,
                t.len() as int,
            ));
            assert(seq![s[0]] + (t.subrange(0, i - 1) + seq![e] + t.subrange(i - 1, t.len() as int))
                =~= s.subrange(0, i) + seq![e] + s.subrange(i, s.len() as int));
        }
    }
}

impl Location {
    /// Sets the coordinate for one axis, keeping entries sorted by tag; an
    /// existing entry for the tag is replaced.
    pub fn insert_entry(&mut self, tag: String, coord: i32)
        requires
            loc_tags_sorted(old(self)@),
        ensures
            final(self)@ == entry_insert(old(self)@, (tag@, coord)),
            loc_tags_sorted(final(self)@),
    {
        let ghost s0 = self@;
        let ghost e = (tag@, coord);
        let n = self.entries.len();
        let mut i: usize = 0;
        loop
            invariant
                i <= n,
                n == self.entries@.len(),
                self@ == s0,
                e == (tag@, coord),
                loc_tags_sorted(s0),
                forall|j: int| 0 <= j < i ==> chars_lt(#[trigger] s0[j].0, e.0),
            ensures
                i <= n,
                self@ == s0,
                n == self.entries@.len(),
                forall|j: int| 0 <= j < i ==> chars_lt(#[trigger] s0[j].0, e.0),
                i == n || !chars_lt(s0[i as int].0, e.0),
            decreases n - i,
        {
            if i >= n {
                break ;
            }
            let cmp = str_lt(self.entries[i].0.as_str(), tag.as_str());
            proof {
                assert(self@[i as int] == s0[i as int]);
                assert(self@[i as int].0 == self.entries@[i as int].0@);
                assert(cmp == chars_lt(s0[i as int].0, e.0));
            }
            if !cmp {
                break ;
            }
            i = i + 1;
        }
        proof {
            lemma_entry_insert_split(s0, e, i as int);
        }
        if i < n {
            let same = str_eq(self.entries[i].0.as_str(), tag.as_str());
            if same {
                self.entries.set(i, (tag, coord));
                proof {
                    assert(self@ =~= s0.update(i as int, e));
                    lemma_entry_update_sorted(s0, e, i as int);
                }
                return ;
            }
        }
        self.entries.insert(i, (tag, coord));
        proof {
            assert(self@ =~= s0.subrange(0, i as int) + seq![e] + s0.subrange(
                i as int,
                s0.len() as int,
            ));
            lemma_entry_splice_sorted(s0, e, i as int);
        }
    }

    /// Rebuilds a location from its persisted entry list.
    pub fn from(repr: LocationSerdeRepr) -> (r: Location)
        ensures
            r@ == loc_from_entries(repr@),
            loc_tags_sorted(r@),
    {
        let mut r = Location::new();
        let n = repr.0.len();
        let mut i: usize = 0;
        proof {
            assert(repr@.skip(0) =~= repr@);
        }
        while i < n
            invariant
                i <= n,
                n == repr.0@.len(),
                n == repr@.len(),
                loc_tags_sorted(r@),
                loc_from_entries(repr@) == loc_from_entries_from(r@, repr@.skip(i as int)),
            decreases n - i,
        {
            let tag = repr.0[i].0.clone();
            let coord = repr.0[i].1;
            proof {
                assert(repr@.skip(i as int)[0] == repr@[i as int]);
                assert(repr@[i as int] == (repr.0@[i as int].0@, repr.0@[i as int].1));
                assert(repr@.skip(i as int).skip(1) =~= repr@.skip(i as int + 1));
            }
            r.insert_entry(tag, coord);
            i = i + 1;
        }
        proof {
            assert(repr@.skip(n as int) =~= Seq::<EntryView>::empty());
        }
        r
    }
}

proof fn lemma_entry_update_sorted(s: Seq<EntryView>, e: EntryView, i: int)
    requires
        loc_tags_sorted(s),
        0 <= i < s.len(),
        s[i].0 == e.0,
    ensures
        loc_tags_sorted(s.update(i, e)),
{
    let r = s.update(i, e);
    assert forall|p: int, q: int| 0 <= p < q < r.len() implies chars_lt(r[p].0, r[q].0) by {
        assert(chars_lt(s[p].0, s[q].0));
    }
}

proof fn lemma_entry_splice_sorted(s: Seq<EntryView>, e: EntryView, i: int)
    requires
        loc_tags_sorted(s),
        0 <= i <= s.len(),
        forall|j: int| 0 <= j < i ==> chars_lt(#[trigger] s[j].0, e.0),
        i < s.len() ==> !chars_lt(s[i].0, e.0),
        i < s.len() ==> s[i].0 != e.0,
    ensures
        loc_tags_sorted(s.subrange(0, i) + seq![e] + s.subrange(i, s.len() as int)),
{
    let r = s.subrange(0, i) + seq![e] + s.subrange(i, s.len() as int);
    assert forall|p: int, q: int| 0 <= p < q < r.len() implies chars_lt(r[p].0, r[q].0) by {
        if p < i {
            assert(r[p] == s[p]);
        } else if p == i {
            assert(r[p] == e);
        } else {
            assert(r[p] == s[p - 1]);
        }
        if q < i {
            assert(r[q] == s[q]);
        } else if q == i {
            assert(r[q] == e);
        } else {
            assert(r[q] == s[q - 1]);
        }
        if q == i {
            assert(chars_lt(r[p].0, e.0));
        } else if p == i {
            assert(q > i);
            lemma_chars_lt_trichotomy(e.0, s[q - 1].0);
            if i < s.len() {
                lemma_chars_lt_trichotomy(e.0, s[i].0);
                if q - 1 > i {
                    assert(chars_lt(s[i].0, s[q - 1].0));
                    if chars_lt(s[q - 1].0, e.0) {
                        lemma_chars_lt_transitive(s[i].0, s[q - 1].0, e.0);
                    }
                } else {
                    assert(s[q - 1] == s[i]);
                }
            }
        } else if p < i && q > i {
            assert(chars_lt(s[p].0, s[q - 1].0));
        }
    }
}

/// The views of a vector of locations.
pub open spec fn locs_view(v: Seq<Location>) -> Seq<LocView> {
    Seq::new(v.len(), |i: int| v[i]@)
}

/// Strictly increasing locations: sorted with no duplicate.
pub open spec fn locs_sorted(s: Seq<LocView>) -> bool {
    forall|i: int, j: int| 0 <= i < j < s.len() ==> entries_lt(#[trigger] s[i], #[trigger] s[j])
}

/// Insertion into a strictly sorted sequence of locations: already-present
/// values are kept once.
pub open spec fn sorted_insert(s: Seq<LocView>, l: LocView) -> Seq<LocView>
    decreases s.len(),
{
    if s.len() == 0 {
        seq![l]
    } else if l == s[0] {
        s
    } else if entries_lt(l, s[0]) {
        seq![l] + s
    } else {
        seq![s[0]] + sorted_insert(s.skip(1), l)
    }
}

/// What `sorted_insert` holds: the values of `s` and `l`, nothing else.
pub proof fn lemma_sorted_insert_membership(s: Seq<LocView>, l: LocView)
    ensures
        forall|x: LocView|
            #[trigger] sorted_insert(s, l).contains(x) <==> s.contains(x) || x == l,
    decreases s.len(),
{
    if s.len() == 0 {
        assert forall|x: LocView| #[trigger]
            sorted_insert(s, l).contains(x) <==> s.contains(x) || x == l by {
            if x == l {
                assert(sorted_insert(s, l)[0] == l);
            }
        }
    } else if l == s[0] {
    } else if entries_lt(l, s[0]) {
        assert forall|x: LocView| #[trigger]
            sorted_insert(s, l).contains(x) <==> s.contains(x) || x == l by {
            let r = seq![l] + s;
            if r.contains(x) {
                let k = choose|k: int| 0 <= k < r.len() && r[k] == x;
                if k == 0 {
                } else {
                    assert(s[k - 1] == x);
                }
            }
            if x == l {
                assert(r[0] == x);
            }
            if s.contains(x) {
                let k = choose|k: int| 0 <= k < s.len() && s[k] == x;
                assert(r[k + 1] == x);
            }
        }
    } else {
        lemma_sorted_insert_membership(s.skip(1), l);
        assert forall|x: LocView| #[trigger]
            sorted_insert(s, l).contains(x) <==> s.contains(x) || x == l by {
            let rest = sorted_insert(s.skip(1), l);
            let r = seq![s[0]] + rest;
            assert(sorted_insert(s, l) == r);
            if r.contains(x) {
                let k = choose|k: int| 0 <= k < r.len() && r[k] == x;
                if k == 0 {
                    assert(s[0] == x);
                    assert(s.contains(x));
                } else {
                    assert(rest[k - 1] == x);
                    assert(rest.contains(x));
                    if s.skip(1).contains(x) {
                        let m = choose|m: int| 0 <= m < s.skip(1).len() && s.skip(1)[m] == x;
                        assert(s[m + 1] == x);
                        assert(s.contains(x));
                    }
                }
            }
            if s.contains(x) {
                let k = choose|k: int| 0 <= k < s.len() && s[k] == x;
                if k == 0 {
                    assert(r[0] == x);
                } else {
                    assert(s.skip(1)[k - 1] == x);
                    assert(s.skip(1).contains(x));
                    assert(rest.contains(x));
                    let m = choose|m: int| 0 <= m < rest.len() && rest[m] == x;
                    assert(r[m + 1] == x);
                }
            }
            if x == l {
                assert(rest.contains(x));
                let m = choose|m: int| 0 <= m < rest.len() && rest[m] == x;
                assert(r[m + 1] == x);
            }
        }
    }
}

/// Insertion keeps the sequence strictly sorted.
pub proof fn lemma_sorted_insert_sorted(s: Seq<LocView>, l: LocView)
    requires
        locs_sorted(s),
    ensures
        locs_sorted(sorted_insert(s, l)),
    decreases s.len(),
{
    if s.len() == 0 {
    } else if l == s[0] {
    } else if entries_lt(l, s[0]) {
        let r = seq![l] + s;
        assert forall|i: int, j: int| 0 <= i < j < r.len() implies entries_lt(r[i], r[j]) by {
            if i == 0 {
                if j == 1 {
                } else {
                    lemma_entries_lt_transitive(l, s[0], s[j - 1]);
                }
            } else {
                assert(entries_lt(s[i - 1], s[j - 1]));
            }
        }
    } else {
        lemma_entries_lt_trichotomy(l, s[0]);
        assert(entries_lt(s[0], l));
        assert(locs_sorted(s.skip(1))) by {
            assert forall|i: int, j: int|
                0 <= i < j < s.skip(1).len() implies entries_lt(s.skip(1)[i], s.skip(1)[j]) by {
                assert(s[i + 1] == s.skip(1)[i]);
                assert(s[j + 1] == s.skip(1)[j]);
            }
        }
        lemma_sorted_insert_sorted(s.skip(1), l);
        lemma_sorted_insert_membership(s.skip(1), l);
        let rest = sorted_insert(s.skip(1), l);
        let r = seq![s[0]] + rest;
        assert forall|i: int, j: int| 0 <= i < j < r.len() implies entries_lt(r[i], r[j]) by {
            if i == 0 {
                assert(rest.contains(rest[j - 1]));
                if rest[j - 1] == l {
                } else {
                    assert(s.skip(1).contains(rest[j - 1]));
                    let m = choose|m: int|
                        0 <= m < s.skip(1).len() && s.skip(1)[m] == rest[j - 1];
                    assert(s[m + 1] == rest[j - 1]);
                    assert(entries_lt(s[0], s[m + 1]));
                }
            } else {
                assert(entries_lt(rest[i - 1], rest[j - 1]));
            }
        }
    }
}

/// The order on locations is transitive.
pub proof fn lemma_entries_lt_transitive(a: LocView, b: LocView, c: LocView)
    requires
        entries_lt(a, b),
        entries_lt(b, c),
    ensures
        entries_lt(a, c),
    decreases a.len(),
{
    if c.len() == 0 {
    } else if b.len() == 0 {
    } else if a.len() == 0 {
    } else {
        if a[0] == b[0] && b[0] == c[0] {
            lemma_entries_lt_transitive(a.skip(1), b.skip(1), c.skip(1));
        } else if a[0] == b[0] {
            assert(entry_lt(b[0], c[0]));
        } else if b[0] == c[0] {
            assert(entry_lt(a[0], b[0]));
        } else {
            lemma_entry_lt_transitive(a[0], b[0], c[0]);
            lemma_entry_lt_trichotomy(a[0], c[0]);
        }
    }
}

/// The order on entries is transitive.
pub proof fn lemma_entry_lt_transitive(x: EntryView, y: EntryView, z: EntryView)
    requires
        entry_lt(x, y),
        entry_lt(y, z),
    ensures
        entry_lt(x, z),
{
    if chars_lt(x.0, y.0) && chars_lt(y.0, z.0) {
        lemma_chars_lt_transitive(x.0, y.0, z.0);
    }
}

/// The order on character sequences is transitive.
pub proof fn lemma_chars_lt_transitive(a: Seq<char>, b: Seq<char>, c: Seq<char>)
    requires
        chars_lt(a, b),
        chars_lt(b, c),
    ensures
        chars_lt(a, c),
    decreases a.len(),
{
    if c.len() == 0 {
    } else if b.len() == 0 {
    } else if a.len() == 0 {
    } else {
        if a[0] == b[0] && b[0] == c[0] {
            lemma_chars_lt_transitive(a.skip(1), b.skip(1), c.skip(1));
        }
    }
}

proof fn lemma_sorted_insert_split(s: Seq<LocView>, l: LocView, i: int)
    requires
        locs_sorted(s),
        0 <= i <= s.len(),
        forall|j: int| 0 <= j < i ==> entries_lt(#[trigger] s[j], l),
        i < s.len() ==> !entries_lt(s[i], l),
    ensures
        i < s.len() && s[i] == l ==> sorted_insert(s, l) == s,
        !(i < s.len() && s[i] == l) ==> sorted_insert(s, l) =~= s.subrange(0, i) + seq![l]
            + s.subrange(i, s.len() as int),
    decreases s.len(),
{
    if s.len() == 0 {
        assert(sorted_insert(s, l) =~= s.subrange(0, i) + seq![l] + s.subrange(i, 0));
    } else if i == 0 {
        if s[0] == l {
        } else {
            lemma_entries_lt_trichotomy(l, s[0]);
            assert(entries_lt(l, s[0]));
            assert(sorted_insert(s, l) == seq![l] + s);
            assert(seq![l] + s =~= s.subrange(0, 0) + seq![l] + s.subrange(0, s.len() as int));
        }
    } else {
        assert(entries_lt(s[0], l));
        lemma_entries_lt_trichotomy(s[0], l);
        assert(s[0] != l);
        assert(!entries_lt(l, s[0]));
        let t = s.skip(1);
        assert(locs_sorted(t)) by {
            assert forall|p: int, q: int| 0 <= p < q < t.len() implies entries_lt(t[p], t[q]) by {
                assert(s[p + 1] == t[p]);
                assert(s[q + 1] == t[q]);
            }
        }
        assert forall|j: int| 0 <= j < i - 1 implies entries_lt(#[trigger] t[j], l) by {
            assert(s[j + 1] == t[j]);
        }
        assert(i - 1 < t.len() ==> !entries_lt(t[i - 1], l)) by {
            if i - 1 < t.len() {
                assert(t[i - 1] == s[i]);
            }
        }
        lemma_sorted_insert_split(t, l, i - 1);
        assert(sorted_insert(s, l) == seq![s[0]] + sorted_insert(t, l));
        if i < s.len() && s[i] == l {
            assert(t[i - 1] == l);
            assert(sorted_insert(t, l) == t);
            assert(seq![s[0]] + t =~= s);
        } else {
            assert(sorted_insert(t, l) =~= t.subrange(0, i - 1) + seq![l] + t.subrange(
                i - 1,
                t.len() as int,
            ));
            assert(seq![s[0]] + (t.subrange(0, i - 1) + seq![l] + t.subrange(i - 1, t.len() as int))
                =~= s.subrange(0, i) + seq![l] + s.subrange(i, s.len() as int));
        }
    }
}

/// Inserts a location into a sorted, duplicate-free vector, keeping it so.
pub fn insert_sorted(locs: &mut Vec<Location>, l: &Location)
    requires
        locs_sorted(locs_view(old(locs)@)),
    ensures
        locs_view(final(locs)@) == sorted_insert(locs_view(old(locs)@), l@),
        locs_sorted(locs_view(final(locs)@)),
{
    let ghost s0 = locs_view(locs@);
    let n = locs.len();
    let mut i: usize = 0;
    loop
        invariant
            i <= n,
            n == locs@.len(),
            locs_view(locs@) == s0,
            locs_sorted(s0),
            forall|j: int| 0 <= j < i ==> entries_lt(#[trigger] s0[j], l@),
        ensures
            i <= n,
            n == locs@.len(),
            locs_view(locs@) == s0,
            forall|j: int| 0 <= j < i ==> entries_lt(#[trigger] s0[j], l@),
            i == n || !entries_lt(s0[i as int], l@),
        decreases n - i,
    {
        if i >= n {
            break ;
        }
        if !locs[i].lt(l) {
            break ;
        }
        proof {
            assert(s0[i as int] == locs@[i as int]@);
        }
        i = i + 1;
    }
    if i < n {
        let same = locs[i].eq_loc(l);
        if same {
            proof {
                assert(s0[i as int] == l@);
                lemma_sorted_insert_split(s0, l@, i as int);
                lemma_sorted_insert_sorted(s0, l@);
            }
            return ;
        }
    }
    let dup = l.duplicate();
    locs.insert(i, dup);
    proof {
        lemma_sorted_insert_split(s0, l@, i as int);
        lemma_sorted_insert_sorted(s0, l@);
        assert(locs_view(locs@) =~= s0.subrange(0, i as int) + seq![l@] + s0.subrange(
            i as int,
            s0.len() as int,
        ));
    }
}

} // verus!
