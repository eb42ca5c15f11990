use vanilla_guess::error::GuessError;
use vanilla_guess::guess::{guess_vanilla_version, DirEntryInfo, Guess, GuessEvent, GuessStep};
use vanilla_guess::matching::{Difference, MatchResourcesResult};
use vanilla_guess::resource::{Property, PropertyValue, Resource, ResourcePack};
use vanilla_guess::score::Percentages;
use vanilla_guess::version::VanillaVersion;

fn paths(ps: &[&str]) -> Vec<String> {
    ps.iter().map(|p| p.to_string()).collect()
}

fn entry(name: &str, is_dir: bool) -> DirEntryInfo {
    DirEntryInfo { name: name.to_string(), is_dir }
}

fn res(path: &str, size: Option<i64>, hashes: &[(&str, &str)]) -> Resource {
    let mut properties = Vec::new();
    if let Some(n) = size {
        properties.push(Property { name: "file_size".to_string(), value: PropertyValue::Int(n) });
    }
    for (alg, digest) in hashes {
        properties.push(Property {
            name: format!("hash_{}", alg),
            value: PropertyValue::Str(digest.to_string()),
        });
    }
    Resource { path: path.to_string(), archive_path: None, properties }
}

fn pack(version: Option<&str>, with_file_size: bool, hashes: &[&str], resources: Vec<Resource>) -> ResourcePack {
    let mut properties = Vec::new();
    if let Some(v) = version {
        properties.push(Property {
            name: "vanilla_version".to_string(),
            value: PropertyValue::Str(v.to_string()),
        });
    }
    ResourcePack {
        name: "pack".to_string(),
        with_file_size,
        archives: vec![],
        hashes: hashes.iter().map(|h| h.to_string()).collect(),
        properties,
        resources,
    }
}

fn result(n: usize, diffs: Vec<Difference>) -> MatchResourcesResult {
    MatchResourcesResult { number_of_resources: n, differences: diffs }
}

fn only_pack(p: &str) -> Difference {
    Difference::OnlyExistsInPack(None, p.chars().collect())
}

#[test]
fn language_single_bucket_gives_version() {
    let g = Guess::default();
    let r = g.guess_by_language_specific_resources(&paths(&["dutch/a.txt", "dutch/b.txt"]));
    assert_eq!(r, Some(VanillaVersion::DUTCH));
}

#[test]
fn language_two_buckets_give_nothing() {
    let g = Guess::default();
    let r = g.guess_by_language_specific_resources(&paths(&["dutch/a.txt", "german/b.txt"]));
    assert_eq!(r, None);
}

#[test]
fn language_no_bucket_gives_nothing() {
    let g = Guess::default();
    assert_eq!(g.guess_by_language_specific_resources(&paths(&[])), None);
    assert_eq!(g.guess_by_language_specific_resources(&paths(&["maps/a.dat", "dutchx/b"])), None);
}

#[test]
fn language_prefix_is_case_insensitive() {
    let g = Guess::default();
    let r = g.guess_by_language_specific_resources(&paths(&["RUSSIAN/a.txt", "Russian/b.txt", "tilesets/x"]));
    assert_eq!(r, Some(VanillaVersion::RUSSIAN));
    let r = g.guess_by_language_specific_resources(&paths(&["Polish/a.txt"]));
    assert_eq!(r, Some(VanillaVersion::POLISH));
}

#[test]
fn datadir_found_in_any_case() {
    let g = Guess::default();
    let r = g.get_datadir(&vec![entry("Maps", true), entry("DATA", true), entry("ja2.exe", false)]);
    assert_eq!(r.ok(), Some("DATA".to_string()));
}

#[test]
fn datadir_missing() {
    let g = Guess::default();
    let r = g.get_datadir(&vec![entry("data", false), entry("maps", true)]);
    assert!(matches!(r, Err(GuessError::DataDirNotFound)));
    let r = g.get_datadir(&vec![]);
    assert!(matches!(r, Err(GuessError::DataDirNotFound)));
}

#[test]
fn datadir_ambiguous() {
    let g = Guess::default();
    let r = g.get_datadir(&vec![entry("data", true), entry("Data", true)]);
    assert!(matches!(r, Err(GuessError::TooManyDataDirs)));
}

#[test]
fn get_version_reads_property() {
    let g = Guess::default();
    assert_eq!(g.get_version(&pack(Some("GERMAN"), false, &[], vec![])).ok(), Some(VanillaVersion::GERMAN));
    assert!(matches!(g.get_version(&pack(None, false, &[], vec![])), Err(GuessError::MissingVersion)));
    match g.get_version(&pack(Some("KLINGON"), false, &[], vec![])) {
        Err(GuessError::UnknownVersion(v)) => assert_eq!(v, "KLINGON"),
        _ => panic!("expected an unknown version"),
    }
}

#[test]
fn self_match_has_no_differences() {
    let g = Guess::default();
    let rs = vec![res("a.txt", Some(3), &[("md5", "x")]), res("b.txt", Some(4), &[("md5", "y")])];
    let rs2 = vec![res("A.TXT", Some(3), &[("md5", "x")]), res("b.txt", Some(4), &[("md5", "y")])];
    let p = pack(Some("ENGLISH"), true, &["md5"], rs);
    let m = g.match_resources(&p, &rs2).ok().unwrap();
    assert_eq!(m.number_of_resources, 2);
    assert_eq!(m.differences.len(), 0);
    let pc = Percentages::from(&m);
    assert_eq!(pc.only_exists_in_data_dir + pc.only_exists_in_pack + pc.file_size_mismatch + pc.hash_mismatch, 0);
}

#[test]
fn one_sided_keys_reported_once() {
    let g = Guess::default();
    let p = pack(Some("ENGLISH"), false, &[], vec![res("a", None, &[]), res("b", None, &[])]);
    let live = vec![res("b", None, &[]), res("c", None, &[])];
    let m = g.match_resources(&p, &live).ok().unwrap();
    assert_eq!(m.number_of_resources, 3);
    assert_eq!(m.differences.len(), 2);
    match &m.differences[0] {
        Difference::OnlyExistsInDataDir(None, k) => assert_eq!(k.iter().collect::<String>(), "c"),
        _ => panic!("expected a key only in the data dir"),
    }
    match &m.differences[1] {
        Difference::OnlyExistsInPack(None, k) => assert_eq!(k.iter().collect::<String>(), "a"),
        _ => panic!("expected a key only in the pack"),
    }
}

#[test]
fn archive_path_is_part_of_key() {
    let g = Guess::default();
    let mut inner = res("a", None, &[]);
    inner.archive_path = Some("Data.SLF".to_string());
    let mut inner2 = res("A", None, &[]);
    inner2.archive_path = Some("data.slf".to_string());
    let p = pack(Some("ENGLISH"), false, &[], vec![inner, res("a", None, &[])]);
    let m = g.match_resources(&p, &vec![inner2]).ok().unwrap();
    assert_eq!(m.number_of_resources, 2);
    assert_eq!(m.differences.len(), 1);
    assert!(matches!(&m.differences[0], Difference::OnlyExistsInPack(None, _)));
}

#[test]
fn size_mismatch_suppresses_hashes() {
    let g = Guess::default();
    let p = pack(Some("ENGLISH"), true, &["md5", "sha1"], vec![res("a", Some(1), &[("md5", "x"), ("sha1", "y")])]);
    let live = vec![res("a", Some(2), &[("md5", "z"), ("sha1", "w")])];
    let m = g.match_resources(&p, &live).ok().unwrap();
    assert_eq!(m.differences.len(), 1);
    match &m.differences[0] {
        Difference::FileSizeMismatch(k, a, b) => {
            assert_eq!(k.iter().collect::<String>(), "a");
            assert_eq!((*a, *b), (Some(2), Some(1)));
        },
        _ => panic!("expected a size mismatch"),
    }
}

#[test]
fn missing_size_is_a_mismatch() {
    let g = Guess::default();
    let p = pack(Some("ENGLISH"), true, &[], vec![res("a", Some(1), &[])]);
    let m = g.match_resources(&p, &vec![res("a", None, &[])]).ok().unwrap();
    assert_eq!(m.differences.len(), 1);
    assert!(matches!(&m.differences[0], Difference::FileSizeMismatch(_, None, Some(1))));
}

#[test]
fn hash_mismatches_counted_per_algorithm() {
    let g = Guess::default();
    let p = pack(
        Some("ENGLISH"),
        false,
        &["md5", "sha1", "sha256"],
        vec![res("a", Some(1), &[("md5", "x"), ("sha1", "y"), ("sha256", "q")])],
    );
    let live = vec![res("a", Some(9), &[("md5", "x"), ("sha1", "z")])];
    let m = g.match_resources(&p, &live).ok().unwrap();
    assert_eq!(m.differences.len(), 2);
    match &m.differences[0] {
        Difference::HashMismatch(k, alg, a, b) => {
            assert_eq!(k.iter().collect::<String>(), "a");
            assert_eq!(alg, "sha1");
            assert_eq!(a.as_deref(), Some("z"));
            assert_eq!(b.as_deref(), Some("y"));
        },
        _ => panic!("expected a hash mismatch"),
    }
    match &m.differences[1] {
        Difference::HashMismatch(_, alg, a, b) => {
            assert_eq!(alg, "sha256");
            assert_eq!(a.as_deref(), None);
            assert_eq!(b.as_deref(), Some("q"));
        },
        _ => panic!("expected a hash mismatch"),
    }
    let pc = Percentages::from(&m);
    assert_eq!(pc.hash_mismatch, 2);
    assert_eq!(pc.number_of_resources, 1);
}

#[test]
fn duplicate_keys_rejected() {
    let g = Guess::default();
    let p = pack(Some("ENGLISH"), false, &[], vec![res("a", None, &[])]);
    let r = g.match_resources(&p, &vec![res("a", None, &[]), res("A", None, &[])]);
    assert!(matches!(r, Err(GuessError::DuplicateKey)));
}

#[test]
fn empty_match_scores_zero() {
    let g = Guess::default();
    let p = pack(Some("ENGLISH"), false, &[], vec![]);
    let m = g.match_resources(&p, &vec![]).ok().unwrap();
    assert_eq!(m.number_of_resources, 0);
    let zero = Percentages::from(&m);
    let some = Percentages::from(&result(10, vec![only_pack("x")]));
    assert!(zero.is_less_than(&some));
    assert!(!some.is_less_than(&zero));
}

#[test]
fn score_fractions_compare_exactly() {
    // 1/10 == 2/20 < 1/3
    let a = Percentages::from(&result(10, vec![only_pack("x")]));
    let b = Percentages::from(&result(20, vec![only_pack("x"), only_pack("y")]));
    let c = Percentages::from(&result(3, vec![only_pack("x")]));
    assert!(!a.is_less_than(&b));
    assert!(!b.is_less_than(&a));
    assert!(a.is_less_than(&c));
    assert!(!c.is_less_than(&a));
}

#[test]
fn resource_matching_tie_keeps_first() {
    let g = Guess::default();
    let rs = vec![
        (VanillaVersion::FRENCH, result(10, vec![only_pack("x")])),
        (VanillaVersion::ENGLISH, result(20, vec![only_pack("x"), only_pack("y")])),
        (VanillaVersion::GERMAN, result(5, vec![only_pack("x"), only_pack("y")])),
    ];
    assert_eq!(g.guess_by_resource_matching(&rs), Some(VanillaVersion::FRENCH));
}

#[test]
fn resource_matching_takes_lowest() {
    let g = Guess::default();
    let rs = vec![
        (VanillaVersion::FRENCH, result(10, vec![only_pack("x"), only_pack("y")])),
        (VanillaVersion::ITALIAN, result(10, vec![only_pack("x")])),
    ];
    assert_eq!(g.guess_by_resource_matching(&rs), Some(VanillaVersion::ITALIAN));
    assert_eq!(g.guess_by_resource_matching(&vec![]), None);
}

#[test]
fn compare_pack_reports_version_and_result() {
    let g = Guess::default();
    let p = pack(Some("POLISH"), false, &[], vec![res("a", None, &[])]);
    let (v, m) = g.compare_pack(&p, &vec![res("a", None, &[])]).ok().unwrap();
    assert_eq!(v, VanillaVersion::POLISH);
    assert_eq!(m.differences.len(), 0);
    assert!(matches!(g.compare_pack(&pack(None, false, &[], vec![]), &vec![]), Err(GuessError::MissingVersion)));
}

fn run(entries: Vec<DirEntryInfo>, found: Vec<String>, results: Vec<(VanillaVersion, MatchResourcesResult)>) -> Option<VanillaVersion> {
    let (mut guess, mut step) = guess_vanilla_version(entries);
    let mut found = Some(found);
    let mut results = Some(results);
    loop {
        step = match step {
            GuessStep::ScanLanguagePaths(d) => guess.guess_vanilla_version(GuessEvent::LanguagePathsScanned(d, found.take().unwrap())),
            GuessStep::CompareResourcePacks(_) => guess.guess_vanilla_version(GuessEvent::PacksCompared(results.take().unwrap())),
            GuessStep::Found(v) => {
                assert_eq!(guess.vanilla_version, Some(v));
                return guess.vanilla_version;
            },
            GuessStep::GiveUp(_) => return guess.vanilla_version,
        }
    }
}

#[test]
fn guess_stops_at_language_stage() {
    let r = run(vec![entry("Data", true)], paths(&["italian/x"]), vec![(VanillaVersion::ENGLISH, result(1, vec![]))]);
    assert_eq!(r, Some(VanillaVersion::ITALIAN));
}

#[test]
fn guess_falls_back_to_matching() {
    let r = run(vec![entry("Data", true)], paths(&["dutch/x", "german/y"]), vec![(VanillaVersion::ENGLISH, result(1, vec![]))]);
    assert_eq!(r, Some(VanillaVersion::ENGLISH));
}

#[test]
fn guess_without_packs_is_empty() {
    let r = run(vec![entry("data", true)], paths(&[]), vec![]);
    assert_eq!(r, None);
}

#[test]
fn guess_without_data_dir_is_empty() {
    assert_eq!(run(vec![], paths(&["dutch/x"]), vec![]), None);
    assert_eq!(run(vec![entry("data", true), entry("DATA", true)], paths(&["dutch/x"]), vec![]), None);
}

#[test]
fn guess_is_reproducible() {
    let a = run(vec![entry("data", true)], paths(&["a"]), vec![(VanillaVersion::RUSSIAN_GOLD, result(2, vec![only_pack("x")])), (VanillaVersion::RUSSIAN, result(2, vec![only_pack("x")]))]);
    let b = run(vec![entry("data", true)], paths(&["a"]), vec![(VanillaVersion::RUSSIAN_GOLD, result(2, vec![only_pack("x")])), (VanillaVersion::RUSSIAN, result(2, vec![only_pack("x")]))]);
    assert_eq!(a, b);
    assert_eq!(a, Some(VanillaVersion::RUSSIAN_GOLD));
}

#[test]
fn failure_gives_up_with_that_error() {
    let mut g = Guess::default();
    match g.guess_vanilla_version(GuessEvent::Failed(GuessError::Io("disk".to_string()))) {
        GuessStep::GiveUp(e) => assert_eq!(e.description(), "disk"),
        _ => panic!("expected to give up"),
    }
    assert_eq!(g.vanilla_version, None);
    match g.guess_vanilla_version(GuessEvent::PacksCompared(vec![])) {
        GuessStep::GiveUp(e) => assert_eq!(e.description(), "Give up"),
        _ => panic!("expected to give up"),
    }
}

#[test]
fn version_names_parse() {
    assert_eq!(VanillaVersion::parse(&"RUSSIAN_GOLD".to_string()), Some(VanillaVersion::RUSSIAN_GOLD));
    assert_eq!(VanillaVersion::parse(&"russian".to_string()), None);
    assert_eq!(GuessError::UnknownVersion("X".to_string()).description(), "unknown vanilla_version X");
}
