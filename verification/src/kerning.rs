//! Kerning-to-feature-text synthesis.
//!
//! Grouped kerning pairs become deterministic feature-source text: one class
//! declaration per group, then one variable `pos` rule per pair inside a
//! single `kern` feature block. Every pair is written against the same
//! location list — the sorted union of every location any pair mentions — a
//! pair owing no value at a location contributing the literal zero.

use vstd::prelude::*;

verus! {

use crate::coords::EntryView;
use crate::coords::LocView;
use crate::coords::Location;
use crate::coords::locs_sorted;
use crate::coords::locs_view;
use crate::coords::sorted_insert;
use crate::coords::insert_sorted;
use crate::coords::lemma_sorted_insert_sorted;
use crate::coords::lemma_sorted_insert_membership;
use crate::coords::wf_coord;
use crate::coords::wf_loc;
use crate::num::coord14_str;
use crate::num::int_str;
use crate::num::append_coord14;
use crate::num::append_int;

/// One side of a kerning pair: a bare glyph or a reference to a named group.
pub enum KernParticipant {
    Glyph(String),
    Group(String),
}

/// A participant as contracts see it.
pub enum SideView {
    Glyph(Seq<char>),
    Group(Seq<char>),
}

impl View for KernParticipant {
    type V = SideView;

    open spec fn view(&self) -> SideView {
        match self {
            KernParticipant::Glyph(n) => SideView::Glyph(n@),
            KernParticipant::Group(n) => SideView::Group(n@),
        }
    }
}

impl KernParticipant {
    /// Whether this side refers to a group.
    pub fn is_group(&self) -> (r: bool)
        ensures
            r == (self@ is Group),
    {
        match self {
            KernParticipant::Glyph(_) => false,
            KernParticipant::Group(_) => true,
        }
    }
}

/// A kerning group as contracts see it: its name and ordered members.
pub struct GroupView {
    pub name: Seq<char>,
    pub members: Seq<Seq<char>>,
}

/// A kerning pair as contracts see it: the two sides and the per-location
/// values, in stored order.
pub struct PairView {
    pub side1: SideView,
    pub side2: SideView,
    pub values: Seq<(LocView, i32)>,
}

/// The kerning input as contracts see it.
pub struct KerningView {
    pub groups: Seq<GroupView>,
    pub kerns: Seq<PairView>,
}

/// Kerning as produced upstream: named groups of glyphs in stored order, and
/// per-pair values keyed by location, pairs in stored order.
pub struct Kerning {
    pub groups: Vec<(String, Vec<String>)>,
    pub kerns: Vec<((KernParticipant, KernParticipant), Vec<(Location, i32)>)>,
}

/// The member names of one group.
pub open spec fn members_view(ms: Seq<String>) -> Seq<Seq<char>> {
    Seq::new(ms.len(), |i: int| ms[i]@)
}

/// One pair's per-location values.
pub open spec fn values_view(vs: Seq<(Location, i32)>) -> Seq<(LocView, i32)> {
    Seq::new(vs.len(), |i: int| (vs[i].0@, vs[i].1))
}

impl View for Kerning {
    type V = KerningView;

    open spec fn view(&self) -> KerningView {
        KerningView {
            groups: Seq::new(
                self.groups@.len(),
                |i: int| GroupView {
                    name: self.groups@[i].0@,
                    members: members_view(self.groups@[i].1@),
                },
            ),
            kerns: Seq::new(
                self.kerns@.len(),
                |i: int| PairView {
                    side1: self.kerns@[i].0.0@,
                    side2: self.kerns@[i].0.1@,
                    values: values_view(self.kerns@[i].1@),
                },
            ),
        }
    }
}

/// Every location any pair mentions lies in the scaled coordinate range.
pub open spec fn wf_kerning(k: KerningView) -> bool {
    forall|i: int, j: int|
        0 <= i < k.kerns.len() && 0 <= j < k.kerns[i].values.len() ==> wf_loc(
            (#[trigger] k.kerns[i].values[j]).0,
        )
}

/// No groups and no pairs.
pub open spec fn kerning_is_empty(k: KerningView) -> bool {
    k.groups.len() == 0 && k.kerns.len() == 0
}

impl Kerning {
    pub open spec fn wf(&self) -> bool {
        wf_kerning(self@)
    }

    /// Whether there is any kerning at all.
    pub fn is_empty(&self) -> (r: bool)
        ensures
            r == kerning_is_empty(self@),
    {
        self.groups.len() == 0 && self.kerns.len() == 0
    }
}

/// A pair is enumerated exactly when it mixes a glyph and a group: the
/// feature compiler must expand it to explicit glyph pairs.
pub open spec fn is_enumerated(p1: SideView, p2: SideView) -> bool {
    (p1 is Group) != (p2 is Group)
}

/// Whether the pair must carry the enumeration prefix.
pub fn enumerated(kp1: &KernParticipant, kp2: &KernParticipant) -> (r: bool)
    ensures
        r == is_enumerated(kp1@, kp2@),
{
    kp1.is_group() != kp2.is_group()
}

/// A participant in feature syntax: group names carry an `@` sigil.
pub open spec fn participant_text(p: SideView) -> Seq<char> {
    match p {
        SideView::Glyph(n) => n,
        SideView::Group(n) => "@"@ + n,
    }
}

/// Appends a participant in feature syntax.
pub fn push_identifier(fea: &mut String, identifier: &KernParticipant)
    ensures
        final(fea)@ == old(fea)@ + participant_text(identifier@),
{
    match identifier {
        KernParticipant::Glyph(name) => {
            fea.append(name.as_str());
        },
        KernParticipant::Group(name) => {
            fea.append("@");
            fea.append(name.as_str());
        },
    }
    proof {
        assert(fea@ =~= old(fea)@ + participant_text(identifier@));
    }
}

/// The pair's value at a location: the stored value if present, else the
/// literal zero.
pub open spec fn value_at(vs: Seq<(LocView, i32)>, l: LocView) -> i32
    decreases vs.len(),
{
    if vs.len() == 0 {
        0
    } else if vs[0].0 == l {
        vs[0].1
    } else {
        value_at(vs.skip(1), l)
    }
}

/// Looks the pair's value up at a location, zero when absent.
pub fn lookup_value(vs: &Vec<(Location, i32)>, l: &Location) -> (r: i32)
    ensures
        r == value_at(values_view(vs@), l@),
{
    let n = vs.len();
    proof {
        assert(values_view(vs@).skip(0) =~= values_view(vs@));
    }
    let mut i: usize = 0;
    loop
        invariant
            i <= n,
            n == vs@.len(),
            values_view(vs@).len() == n,
            value_at(values_view(vs@), l@) == value_at(values_view(vs@).skip(i as int), l@),
        ensures
            i <= n,
            n == vs@.len(),
            values_view(vs@).len() == n,
            value_at(values_view(vs@), l@) == value_at(values_view(vs@).skip(i as int), l@),
            i == n || values_view(vs@)[i as int].0 == l@,
        decreases n - i,
    {
        if i >= n {
            break ;
        }
        proof {
            assert(values_view(vs@).skip(i as int)[0] == values_view(vs@)[i as int]);
        }
        let hit = vs[i].0.eq_loc(l);
        if hit {
            break ;
        }
        proof {
            assert(values_view(vs@).skip(i as int).skip(1) =~= values_view(vs@).skip(i as int + 1));
        }
        i = i + 1;
    }
    if i < n {
        proof {
            assert(values_view(vs@).skip(i as int)[0] == values_view(vs@)[i as int]);
        }
        vs[i].1
    } else {
        proof {
            assert(values_view(vs@).skip(n as int) =~= Seq::<(LocView, i32)>::empty());
        }
        0
    }
}

/// The sorted location union after folding in the first `j` values of one
/// pair.
pub open spec fn locs_after_vals(s: Seq<LocView>, vals: Seq<(LocView, i32)>, j: int) -> Seq<
    LocView,
>
    decreases j,
{
    if j <= 0 {
        s
    } else {
        sorted_insert(locs_after_vals(s, vals, j - 1), vals[j - 1].0)
    }
}

/// The sorted location union after folding in the first `i` pairs.
pub open spec fn union_from_pairs(s: Seq<LocView>, ks: Seq<PairView>, i: int) -> Seq<LocView>
    decreases i,
{
    if i <= 0 {
        s
    } else {
        locs_after_vals(
            union_from_pairs(s, ks, i - 1),
            ks[i - 1].values,
            ks[i - 1].values.len() as int,
        )
    }
}

/// The authoritative per-pair location list: the union of every location any
/// pair mentions, in the canonical sorted order.
pub open spec fn union_locs(k: KerningView) -> Seq<LocView> {
    union_from_pairs(Seq::empty(), k.kerns, k.kerns.len() as int)
}

proof fn lemma_locs_after_vals_sorted(s: Seq<LocView>, vals: Seq<(LocView, i32)>, j: int)
    requires
        locs_sorted(s),
    ensures
        locs_sorted(locs_after_vals(s, vals, j)),
    decreases j,
{
    if j > 0 {
        lemma_locs_after_vals_sorted(s, vals, j - 1);
        lemma_sorted_insert_sorted(locs_after_vals(s, vals, j - 1), vals[j - 1].0);
    }
}

proof fn lemma_union_from_pairs_sorted(s: Seq<LocView>, ks: Seq<PairView>, i: int)
    requires
        locs_sorted(s),
    ensures
        locs_sorted(union_from_pairs(s, ks, i)),
    decreases i,
{
    if i > 0 {
        lemma_union_from_pairs_sorted(s, ks, i - 1);
        lemma_locs_after_vals_sorted(
            union_from_pairs(s, ks, i - 1),
            ks[i - 1].values,
            ks[i - 1].values.len() as int,
        );
    }
}

/// The location union is strictly sorted: the canonical order, independent
/// of how the input was assembled.
pub proof fn lemma_union_locs_sorted(k: KerningView)
    ensures
        locs_sorted(union_locs(k)),
{
    lemma_union_from_pairs_sorted(Seq::empty(), k.kerns, k.kerns.len() as int);
}

proof fn lemma_locs_after_vals_membership(s: Seq<LocView>, vals: Seq<(LocView, i32)>, j: int)
    requires
        0 <= j <= vals.len(),
    ensures
        forall|x: LocView|
            #[trigger] locs_after_vals(s, vals, j).contains(x) <==> s.contains(x) || exists|q: int|
                0 <= q < j && (#[trigger] vals[q]).0 == x,
    decreases j,
{
    if j > 0 {
        lemma_locs_after_vals_membership(s, vals, j - 1);
        lemma_sorted_insert_membership(locs_after_vals(s, vals, j - 1), vals[j - 1].0);
        assert forall|x: LocView| #[trigger]
            locs_after_vals(s, vals, j).contains(x) <==> s.contains(x) || exists|q: int|
                0 <= q < j && (#[trigger] vals[q]).0 == x by {
            if locs_after_vals(s, vals, j).contains(x) {
                if !s.contains(x) {
                    if x == vals[j - 1].0 {
                        assert((vals[j - 1]).0 == x);
                    }
                }
            }
            if exists|q: int| 0 <= q < j && (#[trigger] vals[q]).0 == x {
                let q = choose|q: int| 0 <= q < j && (#[trigger] vals[q]).0 == x;
                if q < j - 1 {
                    assert(locs_after_vals(s, vals, j - 1).contains(x));
                }
            }
        }
    }
}

proof fn lemma_union_from_pairs_membership(s: Seq<LocView>, ks: Seq<PairView>, i: int)
    requires
        0 <= i <= ks.len(),
    ensures
        forall|x: LocView|
            #[trigger] union_from_pairs(s, ks, i).contains(x) <==> s.contains(x) || exists|
                p: int,
                q: int,
            |
                0 <= p < i && 0 <= q < ks[p].values.len() && (#[trigger] ks[p].values[q]).0 == x,
    decreases i,
{
    if i > 0 {
        lemma_union_from_pairs_membership(s, ks, i - 1);
        lemma_locs_after_vals_membership(
            union_from_pairs(s, ks, i - 1),
            ks[i - 1].values,
            ks[i - 1].values.len() as int,
        );
        assert forall|x: LocView| #[trigger]
            union_from_pairs(s, ks, i).contains(x) <==> s.contains(x) || exists|p: int, q: int|
                0 <= p < i && 0 <= q < ks[p].values.len() && (#[trigger] ks[p].values[q]).0
                    == x by {
            if union_from_pairs(s, ks, i).contains(x) {
                if !s.contains(x) {
                    if union_from_pairs(s, ks, i - 1).contains(x) {
                        let (p, q) = choose|p: int, q: int|
                            0 <= p < i - 1 && 0 <= q < ks[p].values.len()
                                && (#[trigger] ks[p].values[q]).0 == x;
                        assert(0 <= p < i && 0 <= q < ks[p].values.len() && ks[p].values[q].0 == x);
                    } else {
                        let q = choose|q: int|
                            0 <= q < ks[i - 1].values.len() && (#[trigger] ks[i - 1].values[q]).0
                                == x;
                        assert(0 <= i - 1 < i && 0 <= q < ks[i - 1].values.len() && ks[i
                            - 1].values[q].0 == x);
                    }
                }
            }
            if exists|p: int, q: int|
                0 <= p < i && 0 <= q < ks[p].values.len() && (#[trigger] ks[p].values[q]).0 == x {
                let (p, q) = choose|p: int, q: int|
                    0 <= p < i && 0 <= q < ks[p].values.len() && (#[trigger] ks[p].values[q]).0
                        == x;
                if p < i - 1 {
                    assert(union_from_pairs(s, ks, i - 1).contains(x));
                } else {
                    if !union_from_pairs(s, ks, i - 1).contains(x) {
                        assert(0 <= q < ks[i - 1].values.len() && ks[i - 1].values[q].0 == x);
                    }
                }
            }
        }
    }
}

/// What the location union holds: exactly the locations some pair's value
/// list mentions.
pub proof fn lemma_union_locs_membership(k: KerningView)
    ensures
        forall|x: LocView|
            #[trigger] union_locs(k).contains(x) <==> exists|p: int, q: int|
                0 <= p < k.kerns.len() && 0 <= q < k.kerns[p].values.len()
                    && (#[trigger] k.kerns[p].values[q]).0 == x,
{
    lemma_union_from_pairs_membership(Seq::empty(), k.kerns, k.kerns.len() as int);
}

/// The comment block marking the synthesized text as machine-made. Empty
/// kerning yields exactly this and nothing else.
pub open spec fn marker_text() -> Seq<char> {
    "\n\n# feacomp generated kerning\n\n"@
}

/// The first `i` member names, space-separated.
pub open spec fn members_upto(ms: Seq<Seq<char>>, i: int) -> Seq<char>
    decreases i,
{
    if i <= 0 {
        Seq::empty()
    } else {
        members_upto(ms, i - 1) + (if i - 1 > 0 {
            " "@
        } else {
            Seq::empty()
        }) + ms[i - 1]
    }
}

/// One feature-class declaration: `@name = [m1 m2];`.
pub open spec fn group_line(g: GroupView) -> Seq<char> {
    "@"@ + g.name + " = "@ + (if g.members.len() == 0 {
        "];\n"@
    } else {
        "["@ + members_upto(g.members, g.members.len() as int) + "];\n"@
    })
}

/// The first `i` class declarations.
pub open spec fn groups_upto(gs: Seq<GroupView>, i: int) -> Seq<char>
    decreases i,
{
    if i <= 0 {
        Seq::empty()
    } else {
        groups_upto(gs, i - 1) + group_line(gs[i - 1])
    }
}

/// One `axis=coordinate` token, the trailing `n` marking a normalized
/// coordinate.
pub open spec fn entry_token(e: EntryView) -> Seq<char> {
    e.0 + "="@ + coord14_str(e.1 as int) + "n"@
}

/// The first `i` entry tokens of a location, comma-separated.
pub open spec fn loc_upto(l: LocView, i: int) -> Seq<char>
    decreases i,
{
    if i <= 0 {
        Seq::empty()
    } else {
        loc_upto(l, i - 1) + (if i - 1 > 0 {
            ","@
        } else {
            Seq::empty()
        }) + entry_token(l[i - 1])
    }
}

/// A location's deterministic text, built once per distinct location.
pub open spec fn loc_text(l: LocView) -> Seq<char> {
    loc_upto(l, l.len() as int)
}

/// The first `i` `location:value` pairs of one rule, space-separated; a
/// location the pair holds no value for contributes the literal zero.
pub open spec fn vals_upto(vs: Seq<(LocView, i32)>, locs: Seq<LocView>, i: int) -> Seq<char>
    decreases i,
{
    if i <= 0 {
        Seq::empty()
    } else {
        vals_upto(vs, locs, i - 1) + (if i - 1 > 0 {
            " "@
        } else {
            Seq::empty()
        }) + loc_text(locs[i - 1]) + ":"@ + int_str(value_at(vs, locs[i - 1]) as int)
    }
}

/// One positioning rule: enumerated pairs carry the `enum` prefix, and the
/// rule lists a value for every location in the union.
pub open spec fn pair_line(p: PairView, locs: Seq<LocView>) -> Seq<char> {
    "  "@ + (if is_enumerated(p.side1, p.side2) {
        "enum "@
    } else {
        Seq::empty()
    }) + "pos "@ + participant_text(p.side1) + " "@ + participant_text(p.side2) + (if locs.len()
        == 0 {
        " );\n"@
    } else {
        " ("@ + vals_upto(p.values, locs, locs.len() as int) + ");\n"@
    })
}

/// The first `i` positioning rules.
pub open spec fn pairs_upto(ks: Seq<PairView>, locs: Seq<LocView>, i: int) -> Seq<char>
    decreases i,
{
    if i <= 0 {
        Seq::empty()
    } else {
        pairs_upto(ks, locs, i - 1) + pair_line(ks[i - 1], locs)
    }
}

/// The synthesized feature text, in full: the generated-by marker; then,
/// unless the kerning is empty, the class declarations and one `kern`
/// feature block holding every pair's rule against the location list
/// `locs`.
pub open spec fn kerning_fea_text(k: KerningView, locs: Seq<LocView>) -> Seq<char> {
    marker_text() + (if kerning_is_empty(k) {
        Seq::empty()
    } else {
        groups_upto(k.groups, k.groups.len() as int) + "\n\n"@ + "feature kern {\n"@ + pairs_upto(
            k.kerns,
            locs,
            k.kerns.len() as int,
        ) + "} kern;\n"@
    })
}

/// Builds one location's text.
#[verifier::loop_isolation(false)]
fn build_loc_string(l: &Location) -> (r: String)
    requires
        wf_loc(l@),
    ensures
        r@ == loc_text(l@),
{
    let mut s = String::new();
    let n = l.entries.len();
    let mut i: usize = 0;
    while i < n
        invariant
            i <= n,
            s@ == loc_upto(l@, i as int),
        decreases n - i,
    {
        if i > 0 {
            s.append(",");
        }
        s.append(l.entries[i].0.as_str());
        s.append("=");
        proof {
            assert(l@[i as int] == (l.entries@[i as int].0@, l.entries@[i as int].1));
            assert(wf_coord(l@[i as int].1));
        }
        append_coord14(&mut s, l.entries[i].1);
        s.append("n");
        proof {
            assert(s@ =~= loc_upto(l@, i as int + 1));
        }
        i = i + 1;
    }
    s
}

/// Gathers the sorted union of every kerned location.
#[verifier::loop_isolation(false)]
fn collect_locs(kerning: &Kerning) -> (r: Vec<Location>)
    requires
        kerning.wf(),
    ensures
        locs_view(r@) == union_locs(kerning@),
        locs_sorted(locs_view(r@)),
        forall|t: int| 0 <= t < r@.len() ==> wf_loc(#[trigger] locs_view(r@)[t]),
{
    let ghost kv = kerning@;
    let mut locs: Vec<Location> = Vec::new();
    let nk = kerning.kerns.len();
    proof {
        assert(locs_view(locs@) =~= Seq::<LocView>::empty());
    }
    let mut i: usize = 0;
    while i < nk
        invariant
            i <= nk,
            locs_sorted(locs_view(locs@)),
            locs_view(locs@) == union_from_pairs(Seq::empty(), kv.kerns, i as int),
        decreases nk - i,
    {
        let vals = &kerning.kerns[i].1;
        let nv = vals.len();
        let mut j: usize = 0;
        while j < nv
            invariant
                j <= nv,
                locs_sorted(locs_view(locs@)),
                locs_view(locs@) == locs_after_vals(
                    union_from_pairs(Seq::empty(), kv.kerns, i as int),
                    kv.kerns[i as int].values,
                    j as int,
                ),
            decreases nv - j,
        {
            proof {
                assert(kv.kerns[i as int].values[j as int].0 == vals@[j as int].0@);
            }
            insert_sorted(&mut locs, &vals[j].0);
            j = j + 1;
        }
        i = i + 1;
    }
    proof {
        lemma_union_locs_membership(kv);
        assert forall|t: int| 0 <= t < locs@.len() implies wf_loc(
            #[trigger] locs_view(locs@)[t],
        ) by {
            assert(union_locs(kv).contains(locs_view(locs@)[t]));
            let (p, q) = choose|p: int, q: int|
                0 <= p < kv.kerns.len() && 0 <= q < kv.kerns[p].values.len() && (#[trigger] kv
                    .kerns[p].values[q]).0 == locs_view(locs@)[t];
            assert(wf_loc(kv.kerns[p].values[q].0));
        }
    }
    locs
}

/// Builds one deterministic string per distinct location, shared by every
/// rule.
#[verifier::loop_isolation(false)]
fn build_loc_strings(locs: &Vec<Location>) -> (r: Vec<String>)
    requires
        forall|t: int| 0 <= t < locs@.len() ==> wf_loc(#[trigger] locs_view(locs@)[t]),
    ensures
        r@.len() == locs@.len(),
        forall|t: int| 0 <= t < locs@.len() ==> (#[trigger] r@[t])@ == loc_text(
            locs_view(locs@)[t],
        ),
{
    let nl = locs.len();
    let mut loc_strings: Vec<String> = Vec::new();
    let mut li: usize = 0;
    while li < nl
        invariant
            li <= nl,
            loc_strings@.len() == li,
            forall|t: int| 0 <= t < li ==> (#[trigger] loc_strings@[t])@ == loc_text(
                locs_view(locs@)[t],
            ),
        decreases nl - li,
    {
        proof {
            assert(locs_view(locs@)[li as int] == locs@[li as int]@);
        }
        let s = build_loc_string(&locs[li]);
        loc_strings.push(s);
        li = li + 1;
    }
    loc_strings
}

/// Appends one feature-class declaration.
#[verifier::loop_isolation(false)]
fn append_group_line(fea: &mut String, name: &String, members: &Vec<String>)
    ensures
        final(fea)@ == old(fea)@ + group_line(
            GroupView { name: name@, members: members_view(members@) },
        ),
{
    let ghost line0 = fea@;
    let ghost mems = members_view(members@);
    fea.append("@");
    fea.append(name.as_str());
    fea.append(" = ");
    let nm = members.len();
    if nm == 0 {
        fea.append("];\n");
    } else {
        fea.append("[");
        let mut mi: usize = 0;
        while mi < nm
            invariant
                mi <= nm,
                fea@ == line0 + "@"@ + name@ + " = "@ + "["@ + members_upto(mems, mi as int),
            decreases nm - mi,
        {
            if mi > 0 {
                fea.append(" ");
            }
            proof {
                assert(mems[mi as int] == members@[mi as int]@);
            }
            fea.append(members[mi].as_str());
            proof {
                assert(fea@ =~= line0 + "@"@ + name@ + " = "@ + "["@ + members_upto(
                    mems,
                    mi as int + 1,
                ));
            }
            mi = mi + 1;
        }
        fea.append("];\n");
    }
    proof {
        assert(fea@ =~= line0 + group_line(GroupView { name: name@, members: mems }));
    }
}

/// Appends one positioning rule against the shared location list.
#[verifier::loop_isolation(false)]
fn append_pair_line(
    fea: &mut String,
    participant1: &KernParticipant,
    participant2: &KernParticipant,
    values: &Vec<(Location, i32)>,
    locs: &Vec<Location>,
    loc_strings: &Vec<String>,
)
    requires
        loc_strings@.len() == locs@.len(),
        forall|t: int| 0 <= t < locs@.len() ==> (#[trigger] loc_strings@[t])@ == loc_text(
            locs_view(locs@)[t],
        ),
    ensures
        final(fea)@ == old(fea)@ + pair_line(
            PairView { side1: participant1@, side2: participant2@, values: values_view(values@) },
            locs_view(locs@),
        ),
{
    let ghost line0 = fea@;
    let ghost ul = locs_view(locs@);
    let ghost vv = values_view(values@);
    fea.append("  ");
    let en = enumerated(participant1, participant2);
    if en {
        fea.append("enum ");
    }
    fea.append("pos ");
    push_identifier(fea, participant1);
    fea.append(" ");
    push_identifier(fea, participant2);
    let ghost mid = line0 + "  "@ + (if is_enumerated(participant1@, participant2@) {
        "enum "@
    } else {
        Seq::<char>::empty()
    }) + "pos "@ + participant_text(participant1@) + " "@ + participant_text(participant2@);
    proof {
        assert(fea@ =~= mid);
    }
    let nl = locs.len();
    if nl == 0 {
        fea.append(" );\n");
    } else {
        fea.append(" (");
        let mut vi: usize = 0;
        while vi < nl
            invariant
                vi <= nl,
                fea@ == mid + " ("@ + vals_upto(vv, ul, vi as int),
            decreases nl - vi,
        {
            if vi > 0 {
                fea.append(" ");
            }
            fea.append(loc_strings[vi].as_str());
            fea.append(":");
            proof {
                assert(ul[vi as int] == locs@[vi as int]@);
            }
            let v = lookup_value(values, &locs[vi]);
            append_int(fea, v as i64);
            proof {
                assert(fea@ =~= mid + " ("@ + vals_upto(vv, ul, vi as int + 1));
            }
            vi = vi + 1;
        }
        fea.append(");\n");
    }
    proof {
        assert(fea@ =~= line0 + pair_line(
            PairView { side1: participant1@, side2: participant2@, values: vv },
            ul,
        ));
    }
}

/// Synthesizes the variable kerning feature text: deterministic in the
/// kerning's content, every pair written against the same sorted location
/// union, empty kerning yielding the generated-by marker alone.
#[verifier::loop_isolation(false)]
pub fn create_kerning_fea(kerning: &Kerning) -> (r: String)
    requires
        kerning.wf(),
    ensures
        r@ == kerning_fea_text(kerning@, union_locs(kerning@)),
{
    let ghost kv = kerning@;
    let ghost ulocs = union_locs(kv);

    let locs = collect_locs(kerning);
    let mut fea = String::new();
    fea.append("\n\n# feacomp generated kerning\n\n");
    if kerning.is_empty() {
        proof {
            assert(fea@ =~= kerning_fea_text(kv, ulocs));
        }
        return fea;
    }
    let loc_strings = build_loc_strings(&locs);

    let ghost head0 = marker_text();
    proof {
        assert(fea@ =~= head0);
    }
    let ng = kerning.groups.len();
    let mut g: usize = 0;
    while g < ng
        invariant
            g <= ng,
            fea@ == head0 + groups_upto(kv.groups, g as int),
        decreases ng - g,
    {
        proof {
            assert(kv.groups[g as int] == GroupView {
                name: kerning.groups@[g as int].0@,
                members: members_view(kerning.groups@[g as int].1@),
            });
        }
        append_group_line(&mut fea, &kerning.groups[g].0, &kerning.groups[g].1);
        proof {
            assert(fea@ =~= head0 + groups_upto(kv.groups, g as int + 1));
        }
        g = g + 1;
    }
    fea.append("\n\n");
    fea.append("feature kern {\n");

    let ghost head1 = head0 + groups_upto(kv.groups, kv.groups.len() as int) + "\n\n"@
        + "feature kern {\n"@;
    proof {
        assert(fea@ =~= head1);
    }
    let nk = kerning.kerns.len();
    let mut p: usize = 0;
    while p < nk
        invariant
            p <= nk,
            fea@ == head1 + pairs_upto(kv.kerns, ulocs, p as int),
        decreases nk - p,
    {
        proof {
            assert(kv.kerns[p as int] == PairView {
                side1: kerning.kerns@[p as int].0.0@,
                side2: kerning.kerns@[p as int].0.1@,
                values: values_view(kerning.kerns@[p as int].1@),
            });
        }
        append_pair_line(
            &mut fea,
            &kerning.kerns[p].0.0,
            &kerning.kerns[p].0.1,
            &kerning.kerns[p].1,
            &locs,
            &loc_strings,
        );
        proof {
            assert(fea@ =~= head1 + pairs_upto(kv.kerns, ulocs, p as int + 1));
        }
        p = p + 1;
    }
    fea.append("} kern;\n");
    proof {
        assert(fea@ =~= kerning_fea_text(kv, ulocs));
    }
    fea
}

/// Synthesis is deterministic: two kerning inputs with the same content
/// yield byte-identical feature text. Together with the contract of
/// [`create_kerning_fea`] — whose result is a function of the kerning's
/// content alone — this pins the output for equal inputs however they were
/// assembled.
pub proof fn lemma_kerning_fea_deterministic(a: Kerning, b: Kerning)
    requires
        a@ == b@,
    ensures
        kerning_fea_text(a@, union_locs(a@)) == kerning_fea_text(b@, union_locs(b@)),
{
}

/// The enumeration rule: a pair's rule opens with the `enum` prefix exactly
/// when the pair mixes a glyph and a group; two glyphs or two groups carry
/// no prefix.
pub proof fn lemma_enumeration_rule(p: PairView, locs: Seq<LocView>)
    ensures
        is_enumerated(p.side1, p.side2) == ((p.side1 is Group) != (p.side2 is Group)),
        is_enumerated(p.side1, p.side2) ==> pair_line(p, locs).take(7) == "  enum "@,
        !is_enumerated(p.side1, p.side2) ==> pair_line(p, locs).take(6) == "  pos "@,
{
    reveal_strlit("  ");
    reveal_strlit("enum ");
    reveal_strlit("pos ");
    reveal_strlit("  enum ");
    reveal_strlit("  pos ");
    if is_enumerated(p.side1, p.side2) {
        assert(pair_line(p, locs).take(7) =~= "  enum "@);
    } else {
        assert(pair_line(p, locs).take(6) =~= "  pos "@);
    }
}

/// Empty kerning synthesizes exactly the generated-marker comment block and
/// nothing else.
pub proof fn lemma_empty_kerning_text(k: KerningView)
    requires
        kerning_is_empty(k),
    ensures
        kerning_fea_text(k, union_locs(k)) == marker_text(),
{
    assert(kerning_fea_text(k, union_locs(k)) =~= marker_text());
}

} // verus!
