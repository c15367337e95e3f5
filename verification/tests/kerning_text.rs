use feacomp::coords::Location;
use feacomp::kerning::{create_kerning_fea, enumerated, KernParticipant, Kerning};

const ONE: i32 = 16384;

fn loc1(tag: &str, coord: i32) -> Location {
    let mut l = Location::new();
    l.insert_entry(String::from(tag), coord);
    l
}

fn glyph(name: &str) -> KernParticipant {
    KernParticipant::Glyph(String::from(name))
}

fn group(name: &str) -> KernParticipant {
    KernParticipant::Group(String::from(name))
}

fn empty_kerning() -> Kerning {
    Kerning { groups: vec![], kerns: vec![] }
}

#[test]
fn empty_kerning_yields_marker_only() {
    let fea = create_kerning_fea(&empty_kerning());
    assert_eq!(fea, "\n\n# feacomp generated kerning\n\n");
}

#[test]
fn enumerated_iff_mixed() {
    assert!(enumerated(&glyph("f"), &group("kern2")));
    assert!(enumerated(&group("kern1"), &glyph("j")));
    assert!(!enumerated(&glyph("f"), &glyph("j")));
    assert!(!enumerated(&group("kern1"), &group("kern2")));
}

#[test]
fn enumeration_prefix_in_text() {
    let kerning = Kerning {
        groups: vec![(String::from("kern1"), vec![String::from("a"), String::from("b")])],
        kerns: vec![
            ((glyph("f"), group("kern1")), vec![(loc1("wght", 0), -10)]),
            ((glyph("f"), glyph("j")), vec![(loc1("wght", 0), -5)]),
            ((group("kern1"), group("kern1")), vec![(loc1("wght", 0), 7)]),
        ],
    };
    let fea = create_kerning_fea(&kerning);
    assert!(fea.contains("  enum pos f @kern1"));
    assert!(fea.contains("  pos f j"));
    assert!(fea.contains("  pos @kern1 @kern1"));
    assert!(!fea.contains("enum pos f j"));
    assert!(!fea.contains("enum pos @kern1 @kern1"));
}

#[test]
fn synthesis_is_deterministic() {
    let build = || Kerning {
        groups: vec![(String::from("kern1"), vec![String::from("a")])],
        kerns: vec![
            ((glyph("f"), group("kern1")), vec![(loc1("wght", -ONE), -10), (loc1("wght", ONE), -20)]),
        ],
    };
    assert_eq!(create_kerning_fea(&build()), create_kerning_fea(&build()));
}

#[test]
fn full_text_of_small_kerning() {
    let kerning = Kerning {
        groups: vec![(String::from("kern1"), vec![String::from("a"), String::from("b")])],
        kerns: vec![
            (
                (glyph("f"), group("kern1")),
                vec![(loc1("wght", -ONE), -10), (loc1("wght", 0), -15), (loc1("wght", ONE), -20)],
            ),
            ((glyph("f"), glyph("j")), vec![(loc1("wght", 0), -5)]),
        ],
    };
    let fea = create_kerning_fea(&kerning);
    let expected = "\n\n# feacomp generated kerning\n\n\
                    @kern1 = [a b];\n\
                    \n\n\
                    feature kern {\n\
                    \x20 enum pos f @kern1 (wght=-1n:-10 wght=0n:-15 wght=1n:-20);\n\
                    \x20 pos f j (wght=-1n:0 wght=0n:-5 wght=1n:0);\n\
                    } kern;\n";
    assert_eq!(fea, expected);
}

#[test]
fn missing_values_are_written_as_zero() {
    let kerning = Kerning {
        groups: vec![],
        kerns: vec![
            ((glyph("f"), glyph("j")), vec![(loc1("wght", -ONE), -10)]),
            ((glyph("a"), glyph("b")), vec![(loc1("wght", ONE), 3)]),
        ],
    };
    let fea = create_kerning_fea(&kerning);
    // Both pairs are written against the union of both locations.
    assert!(fea.contains("pos f j (wght=-1n:-10 wght=1n:0);"));
    assert!(fea.contains("pos a b (wght=-1n:0 wght=1n:3);"));
}

#[test]
fn location_order_is_canonical() {
    // The same content inserted in different orders: one sorted union.
    let a = Kerning {
        groups: vec![],
        kerns: vec![
            ((glyph("f"), glyph("j")), vec![(loc1("wght", ONE), 2), (loc1("wght", -ONE), 1)]),
        ],
    };
    let fea = create_kerning_fea(&a);
    let low = fea.find("wght=-1n:1").unwrap();
    let high = fea.find("wght=1n:2").unwrap();
    assert!(low < high);
}

#[test]
fn fractional_coordinates_print_exactly() {
    let mut l = Location::new();
    l.insert_entry(String::from("slnt"), -8192);
    l.insert_entry(String::from("wght"), 4096);
    let kerning = Kerning {
        groups: vec![],
        kerns: vec![((glyph("f"), glyph("j")), vec![(l, -2)])],
    };
    let fea = create_kerning_fea(&kerning);
    assert!(fea.contains("(slnt=-0.5n,wght=0.25n:-2);"));
}

#[test]
fn singleton_group_is_kept() {
    let kerning = Kerning {
        groups: vec![(String::from("kern1.Je-cy"), vec![String::from("Je-cy")])],
        kerns: vec![],
    };
    let fea = create_kerning_fea(&kerning);
    assert!(fea.contains("@kern1.Je-cy = [Je-cy];\n"));
}
