//! Resolution of multi-location metrics into a default value and per-region
//! deltas.
//!
//! The external variation model decomposes sampled values into one scalar
//! contribution per interpolation region; its answers cross into this module
//! as [`RegionContribution`] values in fixed point: a delta scaled by 65536
//! and the region's scalar weight at the default location scaled by 16384.
//! Everything after that point is verified: the support check, the single
//! rounding of the weighted default sum, the per-region rounding, and the
//! assembly of each region's tents in declared axis order.

use vstd::prelude::*;

verus! {

use crate::coords::CoordConverter;
use crate::coords::Location;
use crate::num::clamp_i16;
use crate::num::round_half_up;

/// One design-space axis: tag, user-facing range, and the user-to-design
/// mapping. Axes are identified uniquely by tag within a font.
pub struct Axis {
    pub name: String,
    pub tag: String,
    pub min: i64,
    pub default: i64,
    pub max: i64,
    pub hidden: bool,
    pub converter: CoordConverter,
}

/// The read-only font-wide inputs this unit needs: units per em and the
/// declared axis order.
pub struct StaticMetadata {
    pub units_per_em: u16,
    pub axes: Vec<Axis>,
}

/// One axis's influence triple for a region, in scaled normalized
/// coordinates.
#[derive(PartialEq, Eq, Structural, Clone, Copy, Debug)]
pub struct Tent {
    pub start: i32,
    pub peak: i32,
    pub end: i32,
}

/// One interpolation region as the external model describes it: a tent per
/// axis the region constrains.
pub struct Region {
    pub axes: Vec<(String, Tent)>,
}

/// A region's view: (tag text, tent) pairs.
pub type RegionView = Seq<(Seq<char>, Tent)>;

impl View for Region {
    type V = RegionView;

    open spec fn view(&self) -> RegionView {
        Seq::new(self.axes@.len(), |i: int| (self.axes@[i].0@, self.axes@[i].1))
    }
}

/// One region's share of a decomposed metric: the region, its delta scaled
/// by 65536, and its scalar weight at the model's default location scaled by
/// 16384.
pub struct RegionContribution {
    pub region: Region,
    pub delta: i64,
    pub default_scalar: i64,
}

/// A contribution's view.
pub struct ContribView {
    pub region: RegionView,
    pub delta: i64,
    pub default_scalar: i64,
}

impl View for RegionContribution {
    type V = ContribView;

    open spec fn view(&self) -> ContribView {
        ContribView { region: self.region@, delta: self.delta, default_scalar: self.default_scalar }
    }
}

/// The views of a contribution list.
pub open spec fn contribs_view(v: Seq<RegionContribution>) -> Seq<ContribView> {
    Seq::new(v.len(), |i: int| v[i]@)
}

/// Bounds under which the weighted sum cannot overflow: the delta magnitude
/// stays within 2^40 (a value magnitude within 2^24 once unscaled) and the
/// scalar weight within its [0, 1] scaled range.
pub open spec fn wf_contrib(c: ContribView) -> bool {
    &&& -0x100_0000_0000 <= c.delta <= 0x100_0000_0000
    &&& 0 <= c.default_scalar <= 16384
}

/// A region is the default region when every tent it holds peaks at zero
/// with no spread: it contributes to the default value, not to the deltas.
pub open spec fn region_is_default(r: RegionView) -> bool {
    forall|i: int| 0 <= i < r.len() ==> #[trigger] r[i].1 == (Tent { start: 0, peak: 0, end: 0 })
}

/// The tent a region holds for an axis tag: the first matching entry.
pub open spec fn region_get(r: RegionView, tag: Seq<char>) -> Option<Tent>
    decreases r.len(),
{
    if r.len() == 0 {
        Option::None
    } else if r[0].0 == tag {
        Option::Some(r[0].1)
    } else {
        region_get(r.skip(1), tag)
    }
}

/// Whether a region holds a tent for every declared axis.
pub open spec fn row_complete(r: RegionView, tags: Seq<Seq<char>>) -> bool {
    forall|j: int| 0 <= j < tags.len() ==> region_get(r, #[trigger] tags[j]) is Some
}

/// A region's tents laid out in declared axis order (meaningful when the
/// row is complete).
pub open spec fn region_row(r: RegionView, tags: Seq<Seq<char>>) -> Seq<Tent> {
    Seq::new(tags.len(), |j: int| region_get(r, tags[j]).unwrap())
}

/// The first declared axis, from index `j` on, for which the region holds
/// no tent.
pub open spec fn row_missing_from(r: RegionView, tags: Seq<Seq<char>>, j: int) -> Option<
    Seq<char>,
>
    decreases tags.len() - j,
{
    if j < 0 || j >= tags.len() {
        Option::None
    } else if region_get(r, tags[j]) is None {
        Option::Some(tags[j])
    } else {
        row_missing_from(r, tags, j + 1)
    }
}

/// The first axis tag missing from the first incomplete non-default region,
/// scanning contributions from index `i` on.
pub open spec fn first_missing_from(c: Seq<ContribView>, tags: Seq<Seq<char>>, i: int) -> Option<
    Seq<char>,
>
    decreases c.len() - i,
{
    if i < 0 || i >= c.len() {
        Option::None
    } else if region_is_default(c[i].region) {
        first_missing_from(c, tags, i + 1)
    } else if row_missing_from(c[i].region, tags, 0) is Some {
        row_missing_from(c[i].region, tags, 0)
    } else {
        first_missing_from(c, tags, i + 1)
    }
}

/// The first axis tag for which some non-default region lacks a tent.
pub open spec fn first_missing(c: Seq<ContribView>, tags: Seq<Seq<char>>) -> Option<Seq<char>> {
    first_missing_from(c, tags, 0)
}

/// The scaled weighted sum of the first `i` contributions at the default
/// location: regions whose scalar weight there is zero are passed over.
pub open spec fn default_sum_upto(c: Seq<ContribView>, i: int) -> int
    decreases i,
{
    if i <= 0 {
        0
    } else {
        default_sum_upto(c, i - 1) + (if c[i - 1].default_scalar != 0 {
            c[i - 1].default_scalar * c[i - 1].delta
        } else {
            0
        })
    }
}

/// The scaled weighted sum of every contribution at the default location.
pub open spec fn default_sum(c: Seq<ContribView>) -> int {
    default_sum_upto(c, c.len() as int)
}

/// The resolved default value: the weighted sum, unscaled by one rounding
/// applied after the summation, saturated into `i16`.
pub open spec fn default_value(c: Seq<ContribView>) -> int {
    clamp_i16(round_half_up(default_sum(c), 0x4000_0000))
}

/// A delta scaled by 65536, rounded once and saturated into `i16`.
pub open spec fn rounded_delta(d: i64) -> int {
    clamp_i16(round_half_up(d as int, 65536))
}

/// The resolved deltas from index `i` on: one row of tents in declared axis
/// order and one rounded delta per non-default region, in model order.
pub open spec fn resolved_deltas_from(
    c: Seq<ContribView>,
    tags: Seq<Seq<char>>,
    i: int,
) -> Seq<(Seq<Tent>, i16)>
    decreases c.len() - i,
{
    if i < 0 || i >= c.len() {
        Seq::empty()
    } else if region_is_default(c[i].region) {
        resolved_deltas_from(c, tags, i + 1)
    } else {
        seq![(region_row(c[i].region, tags), rounded_delta(c[i].delta) as i16)]
            + resolved_deltas_from(c, tags, i + 1)
    }
}

/// Every resolved delta row, in model order.
pub open spec fn resolved_deltas(c: Seq<ContribView>, tags: Seq<Seq<char>>) -> Seq<
    (Seq<Tent>, i16),
> {
    resolved_deltas_from(c, tags, 0)
}

/// The declared axis tags, in font order.
pub open spec fn axis_tags(axes: Seq<Axis>) -> Seq<Seq<char>> {
    Seq::new(axes.len(), |i: int| axes[i].tag@)
}

/// The index of the first unsupported location, from `i` on.
pub open spec fn first_unsupported_from(s: Seq<bool>, i: int) -> Option<int>
    decreases s.len() - i,
{
    if i < 0 || i >= s.len() {
        Option::None
    } else if !s[i] {
        Option::Some(i)
    } else {
        first_unsupported_from(s, i + 1)
    }
}

/// The index of the first location the model reported unsupported.
pub open spec fn first_unsupported(s: Seq<bool>) -> Option<int> {
    first_unsupported_from(s, 0)
}

/// A metric sample references a location the variation model cannot
/// interpolate. Terminal for the metric: nothing is extrapolated.
#[derive(Debug)]
pub struct UnsupportedLocationError(pub Location);

impl UnsupportedLocationError {
    pub fn new(loc: Location) -> (r: UnsupportedLocationError)
        ensures
            r.0@ == loc@,
    {
        UnsupportedLocationError(loc)
    }

    /// What went wrong, as text.
    pub fn message(&self) -> (r: &'static str)
        ensures
            r@ == "no variation model for the requested location"@,
    {
        "no variation model for the requested location"
    }
}

/// A resolved region lacks a tent for a font-declared axis: an
/// inconsistency between the axis list and the variation model.
#[derive(Debug)]
pub struct MissingTentError(pub String);

impl MissingTentError {
    pub fn new(tag: String) -> (r: MissingTentError)
        ensures
            r.0@ == tag@,
    {
        MissingTentError(tag)
    }

    /// What went wrong, as text: the tag whose tent is missing.
    pub fn message(&self) -> (r: String)
        ensures
            r@ == "missing a tent for "@ + self.0@,
    {
        let mut m = String::from_str("missing a tent for ");
        m.append(self.0.as_str());
        m
    }
}

/// Why a metric could not be resolved.
#[derive(Debug)]
pub enum ResolveMetricError {
    Unsupported(UnsupportedLocationError),
    MissingTent(MissingTentError),
}

/// Axis lookup and metric resolution against the font's static metadata:
/// what the external feature compiler asks of this unit while compiling.
pub struct FeaVariationInfo {
    pub static_metadata: StaticMetadata,
}

/// The index of the first axis declared under a tag.
pub open spec fn axis_index(axes: Seq<Axis>, tag: Seq<char>) -> Option<int>
    decreases axes.len(),
{
    if axes.len() == 0 {
        Option::None
    } else if axes[0].tag@ == tag {
        Option::Some(0)
    } else {
        match axis_index(axes.skip(1), tag) {
            Option::Some(i) => Option::Some(i + 1),
            Option::None => Option::None,
        }
    }
}

/// What `axis_index` means: the least index whose axis carries the tag, or
/// nothing when no axis does.
pub proof fn lemma_axis_index_meaning(axes: Seq<Axis>, tag: Seq<char>)
    ensures
        match axis_index(axes, tag) {
            Option::Some(i) => 0 <= i < axes.len() && axes[i].tag@ == tag && forall|j: int|
                0 <= j < i ==> (#[trigger] axes[j].tag)@ != tag,
            Option::None => forall|j: int|
                0 <= j < axes.len() ==> (#[trigger] axes[j].tag)@ != tag,
        },
    decreases axes.len(),
{
    if axes.len() != 0 && axes[0].tag@ != tag {
        lemma_axis_index_meaning(axes.skip(1), tag);
        match axis_index(axes.skip(1), tag) {
            Option::Some(i) => {
                assert(axes.skip(1)[i] == axes[i + 1]);
                assert forall|j: int| 0 <= j < i + 1 implies (#[trigger] axes[j].tag)@ != tag by {
                    if j > 0 {
                        assert(axes.skip(1)[j - 1] == axes[j]);
                        assert(axes.skip(1)[j - 1].tag@ != tag);
                    }
                }
            },
            Option::None => {
                assert forall|j: int| 0 <= j < axes.len() implies (#[trigger] axes[j].tag)@
                    != tag by {
                    if j > 0 {
                        assert(axes.skip(1)[j - 1] == axes[j]);
                        assert(axes.skip(1)[j - 1].tag@ != tag);
                    }
                }
            },
        }
    }
}

impl FeaVariationInfo {
    /// Wraps the static metadata for the compiler's queries.
    pub fn new(static_metadata: StaticMetadata) -> (r: FeaVariationInfo)
        ensures
            r.static_metadata == static_metadata,
    {
        FeaVariationInfo { static_metadata }
    }

    /// The declared index of the axis with this tag, or nothing: absence is
    /// a normal query result, not an error.
    pub fn axis(&self, tag: &str) -> (r: Option<usize>)
        ensures
            match r {
                Option::Some(i) => axis_index(self.static_metadata.axes@, tag@) == Option::Some(
                    i as int,
                ),
                Option::None => axis_index(self.static_metadata.axes@, tag@) is None,
            },
    {
        let n = self.static_metadata.axes.len();
        let mut i: usize = 0;
        proof {
            assert(self.static_metadata.axes@.skip(0) =~= self.static_metadata.axes@);
        }
        loop
            invariant
                i <= n,
                n == self.static_metadata.axes@.len(),
                axis_index(self.static_metadata.axes@, tag@) == match axis_index(
                    self.static_metadata.axes@.skip(i as int),
                    tag@,
                ) {
                    Option::Some(k) => Option::Some(k + i),
                    Option::None => Option::None::<int>,
                },
            ensures
                i <= n,
                n == self.static_metadata.axes@.len(),
                i < n ==> axis_index(self.static_metadata.axes@, tag@) == Option::Some(i as int),
                i == n ==> axis_index(self.static_metadata.axes@, tag@) is None,
            decreases n - i,
        {
            if i >= n {
                proof {
                    assert(self.static_metadata.axes@.skip(i as int).len() == 0);
                }
                break ;
            }
            proof {
                assert(self.static_metadata.axes@.skip(i as int)[0]
                    == self.static_metadata.axes@[i as int]);
                assert(self.static_metadata.axes@.skip(i as int).skip(1)
                    =~= self.static_metadata.axes@.skip(i as int + 1));
            }
            let hit = crate::coords::str_eq(self.static_metadata.axes[i].tag.as_str(), tag);
            if hit {
                break ;
            }
            i = i + 1;
        }
        if i < n {
            Option::Some(i)
        } else {
            Option::None
        }
    }
}

/// Each region's rounded delta is the exact scaled delta to within half a
/// unit (while saturation is inactive): reconstructing a sampled value from
/// the default and the deltas is exact up to one such half-unit per summed
/// term, the rest resting on the external model's own decomposition.
pub proof fn lemma_rounded_delta_error(d: i64)
    requires
        -0x7fff_0000 <= d <= 0x7fff_0000,
    ensures
        rounded_delta(d) * 65536 - d <= 32768,
        d - rounded_delta(d) * 65536 <= 32768,
{
    crate::num::lemma_round_half_up_error(d as int, 65536);
    let q = round_half_up(d as int, 65536);
    assert(q <= 32767) by {
        vstd::arithmetic::div_mod::lemma_fundamental_div_mod(d as int + 32768, 65536);
        vstd::arithmetic::div_mod::lemma_mod_bound(d as int + 32768, 65536);
    }
    assert(q >= -32768) by {
        vstd::arithmetic::div_mod::lemma_fundamental_div_mod(d as int + 32768, 65536);
        vstd::arithmetic::div_mod::lemma_mod_bound(d as int + 32768, 65536);
    }
    assert(clamp_i16(q) == q);
}

/// The default value is one rounding of the exact weighted sum (while
/// saturation is inactive): the summation itself is exact, so rounding error
/// does not compound across regions.
pub proof fn lemma_default_rounding_error(c: Seq<ContribView>)
    requires
        -0x1fff_c000_0000 <= default_sum(c) <= 0x1fff_c000_0000,
    ensures
        default_value(c) * 0x4000_0000 - default_sum(c) <= 0x2000_0000,
        default_sum(c) - default_value(c) * 0x4000_0000 <= 0x2000_0000,
{
    crate::num::lemma_round_half_up_error(default_sum(c), 0x4000_0000);
    let q = round_half_up(default_sum(c), 0x4000_0000);
    let x = default_sum(c) + 0x2000_0000;
    vstd::arithmetic::div_mod::lemma_fundamental_div_mod(x, 0x4000_0000);
    vstd::arithmetic::div_mod::lemma_mod_bound(x, 0x4000_0000);
    let qq = x / 0x4000_0000;
    let r = x % 0x4000_0000;
    assert(x == 0x4000_0000 * qq + r);
    assert(0 <= r < 0x4000_0000);
    assert(-32768 <= qq <= 32767) by (nonlinear_arith)
        requires
            x == 0x4000_0000 * qq + r,
            0 <= r < 0x4000_0000,
            -0x1fff_a000_0000 <= x <= 0x1fff_e000_0000,
    ;
    assert(q == qq);
    assert(clamp_i16(q) == q);
}

/// The views of a resolved delta list.
pub open spec fn rows_view(v: Seq<(Vec<Tent>, i16)>) -> Seq<(Seq<Tent>, i16)> {
    Seq::new(v.len(), |i: int| (v[i].0@, v[i].1))
}

fn clamp_to_i16(v: i128) -> (r: i16)
    ensures
        r as int == clamp_i16(v as int),
{
    if v < -32768 {
        -32768
    } else if v > 32767 {
        32767
    } else {
        v as i16
    }
}

/// The tent this region holds for an axis tag, if any.
fn region_tent(region: &Region, tag: &str) -> (r: Option<Tent>)
    ensures
        r == region_get(region@, tag@),
{
    let n = region.axes.len();
    proof {
        assert(region@.skip(0) =~= region@);
    }
    let mut i: usize = 0;
    loop
        invariant
            i <= n,
            n == region.axes@.len(),
            region@.len() == n,
            region_get(region@, tag@) == region_get(region@.skip(i as int), tag@),
        ensures
            i <= n,
            n == region.axes@.len(),
            region@.len() == n,
            region_get(region@, tag@) == region_get(region@.skip(i as int), tag@),
            i == n || region@[i as int].0 == tag@,
        decreases n - i,
    {
        if i >= n {
            break ;
        }
        proof {
            assert(region@.skip(i as int)[0] == region@[i as int]);
        }
        let hit = crate::coords::str_eq(region.axes[i].0.as_str(), tag);
        if hit {
            break ;
        }
        proof {
            assert(region@.skip(i as int).skip(1) =~= region@.skip(i as int + 1));
        }
        i = i + 1;
    }
    if i < n {
        proof {
            assert(region@.skip(i as int)[0] == region@[i as int]);
        }
        Option::Some(region.axes[i].1)
    } else {
        proof {
            assert(region@.skip(n as int) =~= Seq::<(Seq<char>, Tent)>::empty());
        }
        Option::None
    }
}

/// Whether this region is the default region.
fn region_default(region: &Region) -> (r: bool)
    ensures
        r == region_is_default(region@),
{
    let n = region.axes.len();
    let mut i: usize = 0;
    loop
        invariant
            i <= n,
            n == region.axes@.len(),
            region@.len() == n,
            forall|j: int|
                0 <= j < i ==> #[trigger] region@[j].1 == (Tent { start: 0, peak: 0, end: 0 }),
        ensures
            i <= n,
            n == region.axes@.len(),
            region@.len() == n,
            forall|j: int|
                0 <= j < i ==> #[trigger] region@[j].1 == (Tent { start: 0, peak: 0, end: 0 }),
            i == n || region@[i as int].1 != (Tent { start: 0, peak: 0, end: 0 }),
        decreases n - i,
    {
        if i >= n {
            break ;
        }
        let t = region.axes[i].1;
        if !(t.start == 0 && t.peak == 0 && t.end == 0) {
            proof {
                assert(region@[i as int].1 == t);
            }
            break ;
        }
        i = i + 1;
    }
    i == n
}

proof fn lemma_row_missing_found(r: RegionView, tags: Seq<Seq<char>>, p: int, j: int)
    requires
        0 <= p <= j < tags.len(),
        forall|q: int| p <= q < j ==> region_get(r, #[trigger] tags[q]) is Some,
        region_get(r, tags[j]) is None,
    ensures
        row_missing_from(r, tags, p) == Option::Some(tags[j]),
    decreases j - p,
{
    if p < j {
        lemma_row_missing_found(r, tags, p + 1, j);
    }
}

proof fn lemma_row_missing_none(r: RegionView, tags: Seq<Seq<char>>, p: int)
    requires
        0 <= p,
        forall|q: int| p <= q < tags.len() ==> region_get(r, #[trigger] tags[q]) is Some,
    ensures
        row_missing_from(r, tags, p) is None,
    decreases tags.len() - p,
{
    if p < tags.len() {
        lemma_row_missing_none(r, tags, p + 1);
    }
}

impl FeaVariationInfo {
    /// Resolves one multi-location metric: `values` are the integer samples
    /// keyed by location, `support` the model's answer to "is this location
    /// supported", one per sample, and `contributions` the model's
    /// decomposition of the samples, one scalar delta per region.
    ///
    /// Returns the value at the default location — the weighted sum of the
    /// contributions there, rounded exactly once — together with one (tents
    /// in declared axis order, rounded delta) pair per non-default region,
    /// in the model's region order. Fails with the unsupported-location
    /// error, and no partial result, exactly when some sample's location is
    /// unsupported; fails with the missing-tent error exactly when some
    /// non-default region lacks a tent for a declared axis.
    #[verifier::loop_isolation(false)]
    pub fn resolve_variable_metric(
        &self,
        values: &Vec<(Location, i16)>,
        support: &Vec<bool>,
        contributions: &Vec<RegionContribution>,
    ) -> (r: Result<(i16, Vec<(Vec<Tent>, i16)>), ResolveMetricError>)
        requires
            support@.len() == values@.len(),
            contributions@.len() <= 0x1_0000_0000,
            forall|i: int| 0 <= i < contributions@.len() ==> wf_contrib(#[trigger] contributions@[i]@),
        ensures
            match r {
                Result::Ok(pair) => {
                    &&& first_unsupported(support@) is None
                    &&& first_missing(
                        contribs_view(contributions@),
                        axis_tags(self.static_metadata.axes@),
                    ) is None
                    &&& pair.0 as int == default_value(contribs_view(contributions@))
                    &&& rows_view(pair.1@) == resolved_deltas(
                        contribs_view(contributions@),
                        axis_tags(self.static_metadata.axes@),
                    )
                },
                Result::Err(e) => match e {
                    ResolveMetricError::Unsupported(u) => {
                        &&& first_unsupported(support@) is Some
                        &&& u.0@ == values@[first_unsupported(support@).unwrap()].0@
                    },
                    ResolveMetricError::MissingTent(t) => {
                        &&& first_unsupported(support@) is None
                        &&& first_missing(
                            contribs_view(contributions@),
                            axis_tags(self.static_metadata.axes@),
                        ) == Option::Some(t.0@)
                    },
                },
            },
    {
        let ghost cv = contribs_view(contributions@);
        let ghost tags = axis_tags(self.static_metadata.axes@);

        // Every sampled location must be one the model supports; the first
        // unsupported one is the error, and nothing partial is produced.
        let n = values.len();
        let mut i: usize = 0;
        while i < n && support[i]
            invariant
                i <= n,
                first_unsupported(support@) == first_unsupported_from(support@, i as int),
            decreases n - i,
        {
            i = i + 1;
        }
        if i < n {
            proof {
                assert(first_unsupported(support@) == Option::Some(i as int));
            }
            let e = UnsupportedLocationError::new(values[i].0.duplicate());
            return Result::Err(ResolveMetricError::Unsupported(e));
        }

        // The default value: the weighted sum over regions with a non-zero
        // scalar at the default location, in scaled integers, rounded once.
        let m = contributions.len();
        let mut acc: i128 = 0;
        let mut k: usize = 0;
        while k < m
            invariant
                k <= m,
                acc == default_sum_upto(cv, k as int),
                -0x40_0000_0000_0000 * (k as i128) <= acc <= 0x40_0000_0000_0000 * (k as i128),
            decreases m - k,
        {
            let c = &contributions[k];
            proof {
                assert(cv[k as int] == contributions@[k as int]@);
            }
            if c.default_scalar != 0 {
                proof {
                    assert(-0x40_0000_0000_0000 <= (c.default_scalar as i128) * (c.delta as i128)
                        <= 0x40_0000_0000_0000) by (nonlinear_arith)
                        requires
                            0 <= c.default_scalar <= 16384,
                            -0x100_0000_0000 <= c.delta <= 0x100_0000_0000,
                    ;
                }
                acc = acc + (c.default_scalar as i128) * (c.delta as i128);
            }
            k = k + 1;
        }
        proof {
            assert(-0x40_0000_0000_0000 * (m as i128) >= -0x1000_0000_0000_0000_0000_0000_0000
                && 0x40_0000_0000_0000 * (m as i128) <= 0x1000_0000_0000_0000_0000_0000_0000)
                by (nonlinear_arith)
                requires
                    m <= 0x1_0000_0000,
            ;
        }
        let dflt_raw = crate::num::round_half_up_i128(acc, 0x4000_0000);
        let dflt = clamp_to_i16(dflt_raw);

        // One row of tents per non-default region, each axis in the font's
        // declared order; a region owing a tent for a declared axis is the
        // missing-tent error.
        let mut out: Vec<(Vec<Tent>, i16)> = Vec::new();
        let mut k2: usize = 0;
        while k2 < m
            invariant
                k2 <= m,
                resolved_deltas(cv, tags) == rows_view(out@) + resolved_deltas_from(
                    cv,
                    tags,
                    k2 as int,
                ),
                first_missing(cv, tags) == first_missing_from(cv, tags, k2 as int),
            decreases m - k2,
        {
            let c = &contributions[k2];
            proof {
                assert(cv[k2 as int] == contributions@[k2 as int]@);
            }
            let is_dflt = region_default(&c.region);
            if !is_dflt {
                let na = self.static_metadata.axes.len();
                let mut row: Vec<Tent> = Vec::new();
                let mut j: usize = 0;
                while j < na
                    invariant
                        j <= na,
                        row@.len() == j,
                        forall|p: int|
                            0 <= p < j ==> region_get(c.region@, #[trigger] tags[p])
                                == Option::Some(row@[p]),
                    decreases na - j,
                {
                    proof {
                        assert(tags[j as int] == self.static_metadata.axes@[j as int].tag@);
                    }
                    let t = region_tent(&c.region, self.static_metadata.axes[j].tag.as_str());
                    match t {
                        Option::None => {
                            proof {
                                lemma_row_missing_found(c.region@, tags, 0, j as int);
                            }
                            let e = MissingTentError::new(self.static_metadata.axes[j].tag.clone());
                            return Result::Err(ResolveMetricError::MissingTent(e));
                        },
                        Option::Some(tent) => {
                            row.push(tent);
                        },
                    }
                    j = j + 1;
                }
                proof {
                    lemma_row_missing_none(c.region@, tags, 0);
                    assert(row@ =~= region_row(cv[k2 as int].region, tags));
                }
                let dv_raw = crate::num::round_half_up_i128(c.delta as i128, 65536);
                let dv = clamp_to_i16(dv_raw);
                let ghost out0 = out@;
                out.push((row, dv));
                proof {
                    assert(rows_view(out@) =~= rows_view(out0) + seq![
                        (region_row(cv[k2 as int].region, tags), dv),
                    ]);
                    assert(rows_view(out0) + seq![(region_row(cv[k2 as int].region, tags), dv)]
                        + resolved_deltas_from(cv, tags, k2 as int + 1) =~= rows_view(out0) + (seq![
                        (region_row(cv[k2 as int].region, tags), dv),
                    ] + resolved_deltas_from(cv, tags, k2 as int + 1)));
                }
            }
            k2 = k2 + 1;
        }
        proof {
            assert(resolved_deltas_from(cv, tags, m as int) =~= Seq::<(Seq<Tent>, i16)>::empty());
            assert(rows_view(out@) + Seq::<(Seq<Tent>, i16)>::empty() =~= rows_view(out@));
        }
        Result::Ok((dflt, out))
    }
}

} // verus!
