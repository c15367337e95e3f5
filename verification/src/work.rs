//! The feature work unit's contract with the build scheduler, and the pure
//! decisions of its execution sequence.
//!
//! The unit reads static metadata, glyph order, kerning and authored
//! features from shared build state; synthesizes kerning text when kerning
//! is non-empty and merges it into the authored features; hands the result
//! to the external compiler; and writes up to three table fragments exactly
//! once. The outside work — reading files, running the compiler, writing
//! build state — is driven by the caller; every decision along the way is
//! here, verified.

use vstd::prelude::*;

verus! {

/// The authored feature source: none, a file (with optional include
/// directory), or in-memory text. Merging synthesized kerning always yields
/// the in-memory form.
pub enum Features {
    Empty,
    File { fea_file: String, include_dir: Option<String> },
    Memory { fea_content: String, include_dir: Option<String> },
}

/// An optional path's text.
pub open spec fn opt_text(o: Option<String>) -> Option<Seq<char>> {
    match o {
        Option::None => Option::None,
        Option::Some(s) => Option::Some(s@),
    }
}

/// Merges synthesized kerning text into the authored features: `Empty`
/// becomes in-memory kerning text alone; in-memory text is appended to; a
/// file is replaced by its text (read by the caller and passed in) with the
/// kerning appended, keeping its include directory.
pub fn integrate_kerning(features: &Features, kern_fea: String, file_text: Option<String>) -> (r:
    Features)
    requires
        features is File ==> file_text is Some,
    ensures
        match *features {
            Features::Empty => (r matches Features::Memory { fea_content, include_dir }
                && fea_content@ == kern_fea@ && include_dir is None),
            Features::Memory { fea_content: ref c, include_dir: ref d } => (r
                matches Features::Memory { fea_content, include_dir } && fea_content@ == c@
                + kern_fea@ && opt_text(include_dir) == opt_text(*d)),
            Features::File { fea_file: _, include_dir: ref d } => (r matches Features::Memory {
                fea_content,
                include_dir,
            } && fea_content@ == file_text.unwrap()@ + kern_fea@ && opt_text(include_dir)
                == opt_text(*d)),
        },
{
    match features {
        Features::Empty => Features::Memory { fea_content: kern_fea, include_dir: Option::None },
        Features::Memory { fea_content, include_dir } => {
            let mut content = fea_content.clone();
            content.append(kern_fea.as_str());
            Features::Memory { fea_content: content, include_dir: clone_opt(include_dir) }
        },
        Features::File { fea_file: _, include_dir } => {
            let mut content = match file_text {
                Option::Some(t) => t,
                Option::None => String::new(),  // unreachable under the precondition
            };
            content.append(kern_fea.as_str());
            Features::Memory { fea_content: content, include_dir: clone_opt(include_dir) }
        },
    }
}

/// A copy of an optional path with the same text.
fn clone_opt(o: &Option<String>) -> (r: Option<String>)
    ensures
        opt_text(r) == opt_text(*o),
        r is Some <==> *o is Some,
{
    match o {
        Option::None => Option::None,
        Option::Some(s) => Option::Some(s.clone()),
    }
}

/// Whether the external compiler is invoked at all: only when the effective
/// features are not `Empty`. With `Features::Empty` throughout, no tables
/// are produced and no error occurs.
pub fn should_compile(features: &Features) -> (r: bool)
    ensures
        r == !(*features is Empty),
{
    match features {
        Features::Empty => false,
        _ => true,
    }
}

/// What upstream work products a work unit may read.
pub enum FeWorkId {
    GlyphOrder,
    StaticMetadata,
    Kerning,
    Features,
}

/// This crate's own work products.
pub enum WorkId {
    Features,
    Gpos,
    Gsub,
    Gdef,
}

/// Any work product in the build graph.
pub enum AnyWorkId {
    Be(WorkId),
    Fe(FeWorkId),
}

/// What shared build state a work unit declares it reads.
pub enum Access {
    Specific(Vec<AnyWorkId>),
}

/// The feature compilation work unit: its scheduler contract, and the
/// execution decisions, stand on this type. The caller performs the outside
/// work (file reads, the external compile, state writes) in the sequence
/// the contract describes.
pub struct FeatureWork {}

impl FeatureWork {
    /// A new work unit.
    pub fn create() -> (r: Box<FeatureWork>)
        ensures
            *r == (FeatureWork {  }),
    {
        Box::new(FeatureWork {})
    }

    /// The one identifier this unit is scheduled under.
    pub fn id(&self) -> (r: AnyWorkId)
        ensures
            r == AnyWorkId::Be(WorkId::Features),
    {
        AnyWorkId::Be(WorkId::Features)
    }

    /// Exactly the shared state this unit reads: glyph order, static
    /// metadata, kerning, and authored features. The scheduler must have
    /// them available before invoking the unit.
    pub fn read_access(&self) -> (r: Access)
        ensures
            r matches Access::Specific(ids) && ids@ == seq![
                AnyWorkId::Fe(FeWorkId::GlyphOrder),
                AnyWorkId::Fe(FeWorkId::StaticMetadata),
                AnyWorkId::Fe(FeWorkId::Kerning),
                AnyWorkId::Fe(FeWorkId::Features),
            ],
    {
        let ids: Vec<AnyWorkId> = vec![
            AnyWorkId::Fe(FeWorkId::GlyphOrder),
            AnyWorkId::Fe(FeWorkId::StaticMetadata),
            AnyWorkId::Fe(FeWorkId::Kerning),
            AnyWorkId::Fe(FeWorkId::Features),
        ];
        proof {
            assert(ids@ =~= seq![
                AnyWorkId::Fe(FeWorkId::GlyphOrder),
                AnyWorkId::Fe(FeWorkId::StaticMetadata),
                AnyWorkId::Fe(FeWorkId::Kerning),
                AnyWorkId::Fe(FeWorkId::Features),
            ]);
        }
        Access::Specific(ids)
    }

    /// The outputs this unit produces as one atomic group besides its own
    /// identifier: the three table fragments. The scheduler treats them as
    /// completed together when this unit finishes.
    pub fn also_completes(&self) -> (r: Vec<AnyWorkId>)
        ensures
            r@ == seq![
                AnyWorkId::Be(WorkId::Gpos),
                AnyWorkId::Be(WorkId::Gsub),
                AnyWorkId::Be(WorkId::Gdef),
            ],
    {
        let ids: Vec<AnyWorkId> = vec![
            AnyWorkId::Be(WorkId::Gpos),
            AnyWorkId::Be(WorkId::Gsub),
            AnyWorkId::Be(WorkId::Gdef),
        ];
        proof {
            assert(ids@ =~= seq![
                AnyWorkId::Be(WorkId::Gpos),
                AnyWorkId::Be(WorkId::Gsub),
                AnyWorkId::Be(WorkId::Gdef),
            ]);
        }
        ids
    }
}

/// Which table slots a successful compile writes: each of the three exactly
/// once, and only when the compiler produced that fragment.
pub open spec fn writes_spec(has_gpos: bool, has_gsub: bool, has_gdef: bool) -> Seq<WorkId> {
    (if has_gpos {
        seq![WorkId::Gpos]
    } else {
        Seq::empty()
    }) + (if has_gsub {
        seq![WorkId::Gsub]
    } else {
        Seq::empty()
    }) + (if has_gdef {
        seq![WorkId::Gdef]
    } else {
        Seq::empty()
    })
}

/// The write plan for a compile result: one slot per fragment the compiler
/// produced, in table order, each written at most once.
pub fn table_writes(has_gpos: bool, has_gsub: bool, has_gdef: bool) -> (r: Vec<WorkId>)
    ensures
        r@ == writes_spec(has_gpos, has_gsub, has_gdef),
{
    let mut r: Vec<WorkId> = Vec::new();
    if has_gpos {
        r.push(WorkId::Gpos);
    }
    if has_gsub {
        r.push(WorkId::Gsub);
    }
    if has_gdef {
        r.push(WorkId::Gdef);
    }
    proof {
        assert(r@ =~= writes_spec(has_gpos, has_gsub, has_gdef));
    }
    r
}

} // verus!
