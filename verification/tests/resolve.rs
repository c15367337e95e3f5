use feacomp::coords::{CoordConverter, Location};
use feacomp::variations::{
    Axis, FeaVariationInfo, Region, RegionContribution, ResolveMetricError, StaticMetadata, Tent,
};

fn loc1(tag: &str, coord: i32) -> Location {
    let mut l = Location::new();
    l.insert_entry(String::from(tag), coord);
    l
}

fn axis(name: &str, tag: &str, min: i64, default: i64, max: i64, mappings: Vec<(i64, i64)>, default_idx: usize) -> Axis {
    Axis {
        name: String::from(name),
        tag: String::from(tag),
        min,
        default,
        max,
        hidden: false,
        converter: CoordConverter { user_to_design: mappings, default_idx },
    }
}

fn weight_variable_static_metadata(min: i64, def: i64, max: i64) -> StaticMetadata {
    StaticMetadata {
        units_per_em: 1024,
        axes: vec![
            axis(
                "Weight",
                "wght",
                min,
                def,
                max,
                vec![(min, 0), (def, 1), (max, 2)],
                1,
            ),
            // no-op 'point' axis, should be ignored
            axis("Width", "wdth", 0, 0, 0, vec![], 0),
        ],
    }
}

fn region(wght: (i32, i32, i32), wdth: (i32, i32, i32)) -> Region {
    Region {
        axes: vec![
            (
                String::from("wght"),
                Tent { start: wght.0, peak: wght.1, end: wght.2 },
            ),
            (
                String::from("wdth"),
                Tent { start: wdth.0, peak: wdth.1, end: wdth.2 },
            ),
        ],
    }
}

const ONE: i32 = 16384;
const DELTA_ONE: i64 = 65536;

fn is_default(row: &Vec<Tent>) -> bool {
    row.iter().all(|t| t.start == 0 && t.peak == 0 && t.end == 0)
}

#[test]
fn resolve_kern() {
    let static_metadata = weight_variable_static_metadata(300, 400, 700);
    let var_info = FeaVariationInfo::new(static_metadata);

    let values = vec![
        (loc1("wght", -ONE), 10i16),
        (loc1("wght", 0), 15i16),
        (loc1("wght", ONE), 20i16),
    ];
    let support = vec![true, true, true];
    // The model's decomposition for masters at -1, 0, 1: the default region
    // carries the default master's value, the two others the differences.
    let contributions = vec![
        RegionContribution {
            region: region((0, 0, 0), (0, 0, 0)),
            delta: 15 * DELTA_ONE,
            default_scalar: ONE as i64,
        },
        RegionContribution {
            region: region((-ONE, -ONE, 0), (0, 0, 0)),
            delta: -5 * DELTA_ONE,
            default_scalar: 0,
        },
        RegionContribution {
            region: region((0, ONE, ONE), (0, 0, 0)),
            delta: 5 * DELTA_ONE,
            default_scalar: 0,
        },
    ];

    let (default, regions) = var_info
        .resolve_variable_metric(&values, &support, &contributions)
        .unwrap();
    assert!(!regions.iter().any(|(r, _)| is_default(r)));
    let region_values: Vec<_> = regions.into_iter().map(|(_, v)| v + default).collect();
    assert_eq!((15, vec![10, 20]), (default, region_values));
}

#[test]
fn resolve_fails_on_unsupported_location() {
    let static_metadata = weight_variable_static_metadata(300, 400, 700);
    let var_info = FeaVariationInfo::new(static_metadata);
    let values = vec![(loc1("wght", 0), 15i16), (loc1("wght", 8192), 4i16)];
    let support = vec![true, false];
    let contributions: Vec<RegionContribution> = vec![];
    match var_info.resolve_variable_metric(&values, &support, &contributions) {
        Err(ResolveMetricError::Unsupported(e)) => {
            assert_eq!(e.0.entries, vec![(String::from("wght"), 8192)]);
        }
        _ => panic!("expected the unsupported-location error"),
    }
}

#[test]
fn resolve_fails_on_missing_tent() {
    let static_metadata = weight_variable_static_metadata(300, 400, 700);
    let var_info = FeaVariationInfo::new(static_metadata);
    let values = vec![(loc1("wght", 0), 15i16)];
    let support = vec![true];
    // A non-default region holding a tent for wght alone: wdth's is owed.
    let contributions = vec![RegionContribution {
        region: Region {
            axes: vec![(String::from("wght"), Tent { start: 0, peak: ONE, end: ONE })],
        },
        delta: 5 * DELTA_ONE,
        default_scalar: 0,
    }];
    match var_info.resolve_variable_metric(&values, &support, &contributions) {
        Err(ResolveMetricError::MissingTent(e)) => {
            assert_eq!(e.0, String::from("wdth"));
            assert_eq!(e.message(), String::from("missing a tent for wdth"));
        }
        _ => panic!("expected the missing-tent error"),
    }
}

#[test]
fn axis_lookup_by_tag() {
    let static_metadata = weight_variable_static_metadata(300, 400, 700);
    let var_info = FeaVariationInfo::new(static_metadata);
    assert_eq!(var_info.axis("wght"), Some(0));
    assert_eq!(var_info.axis("wdth"), Some(1));
    assert_eq!(var_info.axis("opsz"), None);
}

#[test]
fn delta_rounding_is_half_up() {
    let static_metadata = weight_variable_static_metadata(300, 400, 700);
    let var_info = FeaVariationInfo::new(static_metadata);
    let values = vec![(loc1("wght", 0), 0i16)];
    let support = vec![true];
    // Deltas of 3.5 and -3.5: ties round toward positive infinity.
    let contributions = vec![
        RegionContribution {
            region: region((0, ONE, ONE), (0, 0, 0)),
            delta: 3 * DELTA_ONE + DELTA_ONE / 2,
            default_scalar: 0,
        },
        RegionContribution {
            region: region((-ONE, -ONE, 0), (0, 0, 0)),
            delta: -3 * DELTA_ONE - DELTA_ONE / 2,
            default_scalar: 0,
        },
    ];
    let (default, regions) = var_info
        .resolve_variable_metric(&values, &support, &contributions)
        .unwrap();
    assert_eq!(default, 0);
    let deltas: Vec<i16> = regions.into_iter().map(|(_, v)| v).collect();
    assert_eq!(deltas, vec![4, -3]);
}

#[test]
fn default_is_rounded_once_after_summing() {
    let static_metadata = weight_variable_static_metadata(300, 400, 700);
    let var_info = FeaVariationInfo::new(static_metadata);
    let values = vec![(loc1("wght", 0), 0i16)];
    let support = vec![true];
    // Two contributions of 0.8 at half weight: summed they give 0.8, which
    // rounds to 1; rounding each term first would have given 0 + 0.
    let contributions = vec![
        RegionContribution {
            region: region((0, 0, 0), (0, 0, 0)),
            delta: 52429, // 0.8 in 1/65536 units
            default_scalar: 8192, // weight 0.5
        },
        RegionContribution {
            region: region((0, 0, 0), (0, 0, 0)),
            delta: 52429,
            default_scalar: 8192,
        },
    ];
    let (default, regions) = var_info
        .resolve_variable_metric(&values, &support, &contributions)
        .unwrap();
    // 0.5 * 0.8 + 0.5 * 0.8 = 0.8, rounded once to 1.
    assert_eq!(default, 1);
    assert!(regions.is_empty());
}

#[test]
fn delta_saturates_into_i16_range() {
    let static_metadata = weight_variable_static_metadata(300, 400, 700);
    let var_info = FeaVariationInfo::new(static_metadata);
    let values = vec![(loc1("wght", 0), 0i16)];
    let support = vec![true];
    // Deltas far beyond the i16 range saturate at its bounds.
    let contributions = vec![
        RegionContribution {
            region: region((0, ONE, ONE), (0, 0, 0)),
            delta: 1 << 40,
            default_scalar: 0,
        },
        RegionContribution {
            region: region((-ONE, -ONE, 0), (0, 0, 0)),
            delta: -(1 << 40),
            default_scalar: 0,
        },
    ];
    let (_, regions) = var_info
        .resolve_variable_metric(&values, &support, &contributions)
        .unwrap();
    let deltas: Vec<i16> = regions.into_iter().map(|(_, v)| v).collect();
    assert_eq!(deltas, vec![32767, -32768]);
}
