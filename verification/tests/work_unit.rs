use feacomp::overlay::{InMemoryResolver, Resolution};
use feacomp::work::{
    integrate_kerning, should_compile, table_writes, Access, AnyWorkId, Features, FeWorkId,
    FeatureWork, WorkId,
};

#[test]
fn work_unit_declares_reads_and_grouped_outputs() {
    let work = FeatureWork::create();
    assert!(matches!(work.id(), AnyWorkId::Be(WorkId::Features)));
    let Access::Specific(reads) = work.read_access();
    assert!(matches!(reads[0], AnyWorkId::Fe(FeWorkId::GlyphOrder)));
    assert!(matches!(reads[1], AnyWorkId::Fe(FeWorkId::StaticMetadata)));
    assert!(matches!(reads[2], AnyWorkId::Fe(FeWorkId::Kerning)));
    assert!(matches!(reads[3], AnyWorkId::Fe(FeWorkId::Features)));
    assert_eq!(reads.len(), 4);
    let also = work.also_completes();
    assert!(matches!(also[0], AnyWorkId::Be(WorkId::Gpos)));
    assert!(matches!(also[1], AnyWorkId::Be(WorkId::Gsub)));
    assert!(matches!(also[2], AnyWorkId::Be(WorkId::Gdef)));
    assert_eq!(also.len(), 3);
}

#[test]
fn integrate_kerning_into_empty() {
    let merged = integrate_kerning(&Features::Empty, String::from("# kern\n"), None);
    match merged {
        Features::Memory { fea_content, include_dir } => {
            assert_eq!(fea_content, "# kern\n");
            assert!(include_dir.is_none());
        }
        _ => panic!("expected the in-memory variant"),
    }
}

#[test]
fn integrate_kerning_appends_to_memory() {
    let features = Features::Memory {
        fea_content: String::from("feature liga {} liga;\n"),
        include_dir: Some(String::from("inc")),
    };
    let merged = integrate_kerning(&features, String::from("# kern\n"), None);
    match merged {
        Features::Memory { fea_content, include_dir } => {
            assert_eq!(fea_content, "feature liga {} liga;\n# kern\n");
            assert_eq!(include_dir, Some(String::from("inc")));
        }
        _ => panic!("expected the in-memory variant"),
    }
}

#[test]
fn integrate_kerning_reads_file_text() {
    let features = Features::File {
        fea_file: String::from("features.fea"),
        include_dir: Some(String::from("inc")),
    };
    let merged = integrate_kerning(
        &features,
        String::from("# kern\n"),
        Some(String::from("# authored\n")),
    );
    match merged {
        Features::Memory { fea_content, include_dir } => {
            assert_eq!(fea_content, "# authored\n# kern\n");
            assert_eq!(include_dir, Some(String::from("inc")));
        }
        _ => panic!("expected the in-memory variant"),
    }
}

#[test]
fn compile_is_skipped_only_for_empty_features() {
    assert!(!should_compile(&Features::Empty));
    assert!(should_compile(&Features::Memory {
        fea_content: String::from(""),
        include_dir: None,
    }));
    assert!(should_compile(&Features::File {
        fea_file: String::from("f.fea"),
        include_dir: None,
    }));
}

#[test]
fn table_writes_cover_present_fragments_once() {
    assert!(table_writes(false, false, false).is_empty());
    let all = table_writes(true, true, true);
    assert!(matches!(all[0], WorkId::Gpos));
    assert!(matches!(all[1], WorkId::Gsub));
    assert!(matches!(all[2], WorkId::Gdef));
    assert_eq!(all.len(), 3);
    let only_gdef = table_writes(false, false, true);
    assert_eq!(only_gdef.len(), 1);
    assert!(matches!(only_gdef[0], WorkId::Gdef));
}

#[test]
fn overlay_returns_memory_content_verbatim() {
    let resolver = InMemoryResolver {
        content_path: String::new(),
        content: String::from("feature kern {} kern;\n"),
        include_dir: None,
    };
    match resolver.get_contents("") {
        Ok(Resolution::Content(c)) => assert_eq!(c, "feature kern {} kern;\n"),
        _ => panic!("expected the in-memory content"),
    }
}

#[test]
fn overlay_without_include_dir_fails() {
    let resolver = InMemoryResolver {
        content_path: String::new(),
        content: String::from("x"),
        include_dir: None,
    };
    match resolver.get_contents("other.fea") {
        Err(e) => assert_eq!(e.message(), "No include path available"),
        Ok(_) => panic!("expected the no-include-directory error"),
    }
}

#[test]
fn overlay_delegates_other_paths_to_include_dir() {
    let resolver = InMemoryResolver {
        content_path: String::new(),
        content: String::from("x"),
        include_dir: Some(String::from("/project/inc")),
    };
    match resolver.get_contents("other.fea") {
        Ok(Resolution::ReadFile(p)) => assert_eq!(p, "/project/inc/other.fea"),
        _ => panic!("expected delegation to the include directory"),
    }
}
