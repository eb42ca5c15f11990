//! Guessing the vanilla version of a game data directory.
//!
//! The guess runs as a sequence of steps: each step takes what the caller read
//! from disk (the game directory's entries, the paths inside its archives, the
//! comparisons with the reference packs) and says what to read next, until a
//! version is found or the guess gives up.
use vstd::prelude::*;
use crate::caseless::{caseless, caseless_of, chars_eq, starts_with};
use crate::error::GuessError;
use crate::matching::{
    all_diffs, all_distinct, diff_views, find_key, key_count, key_views, keys,
    lemma_only_diffs_len, lemma_key_count_is_union, push_only_diffs, push_resource_diffs, common_diffs_below,
    Difference, MatchResourcesResult,
};
use crate::resource::{get_str, keys_of, str_prop, Resource, ResourcePack};
use crate::score::{result_score, score_less, Percentages};
use crate::version::{version_named, VanillaVersion};

verus! {

/// The result of guessing the game version for a data directory.
pub struct Guess {
    pub vanilla_version: Option<VanillaVersion>,
}

impl Default for Guess {
    fn default() -> (r: Guess)
        ensures
            r.vanilla_version == None::<VanillaVersion>,
    {
        Guess { vanilla_version: None }
    }
}

/// The result of a step that can fail.
pub type GuessResult<T> = Result<T, GuessError>;

/// One entry of the game directory.
pub struct DirEntryInfo {
    pub name: String,
    pub is_dir: bool,
}

/// Whether `e` is a directory named "data" in any case.
pub open spec fn is_data_dir(e: DirEntryInfo) -> bool {
    e.is_dir && caseless_of(e.name@) == caseless_of("data"@)
}

/// The names of the data directories among the first `n` entries, in order.
pub open spec fn data_dirs_below(es: Seq<DirEntryInfo>, n: int) -> Seq<Seq<char>>
    decreases n,
{
    if n <= 0 || n > es.len() {
        Seq::empty()
    } else if is_data_dir(es[n - 1]) {
        data_dirs_below(es, n - 1).push(es[n - 1].name@)
    } else {
        data_dirs_below(es, n - 1)
    }
}

/// The names of the data directories among `es`, in order.
pub open spec fn data_dirs(es: Seq<DirEntryInfo>) -> Seq<Seq<char>> {
    data_dirs_below(es, es.len() as int)
}

/// The folded path prefix of language bucket `l` (0 to 4).
pub open spec fn language_prefix(l: int) -> Seq<char> {
    if l == 0 {
        "dutch/"@
    } else if l == 1 {
        "german/"@
    } else if l == 2 {
        "italian/"@
    } else if l == 3 {
        "polish/"@
    } else {
        "russian/"@
    }
}

/// The release that language bucket `l` (0 to 4) stands for.
pub open spec fn language_version(l: int) -> VanillaVersion {
    if l == 0 {
        VanillaVersion::DUTCH
    } else if l == 1 {
        VanillaVersion::GERMAN
    } else if l == 2 {
        VanillaVersion::ITALIAN
    } else if l == 3 {
        VanillaVersion::POLISH
    } else {
        VanillaVersion::RUSSIAN
    }
}

/// Whether `s` begins with `prefix`.
pub open spec fn has_prefix(s: Seq<char>, prefix: Seq<char>) -> bool {
    prefix.len() <= s.len() && s.subrange(0, prefix.len() as int) == prefix
}

/// The first language bucket whose prefix the folded `path` begins with, or -1.
pub open spec fn language_of(path: Seq<char>) -> int {
    let p = caseless_of(path);
    if has_prefix(p, language_prefix(0)) {
        0
    } else if has_prefix(p, language_prefix(1)) {
        1
    } else if has_prefix(p, language_prefix(2)) {
        2
    } else if has_prefix(p, language_prefix(3)) {
        3
    } else if has_prefix(p, language_prefix(4)) {
        4
    } else {
        -1
    }
}

/// How many of the first `n` paths fall in language bucket `l`.
pub open spec fn language_count_below(paths: Seq<String>, l: int, n: int) -> nat
    decreases n,
{
    if n <= 0 || n > paths.len() {
        0
    } else {
        language_count_below(paths, l, n - 1) + if language_of(paths[n - 1]@) == l {
            1nat
        } else {
            0nat
        }
    }
}

/// How many paths fall in language bucket `l`.
pub open spec fn language_count(paths: Seq<String>, l: int) -> nat {
    language_count_below(paths, l, paths.len() as int)
}

/// Whether bucket `l` is the only non-empty one of the five.
pub open spec fn sole_bucket(paths: Seq<String>, l: int) -> bool {
    &&& 0 <= l < 5
    &&& language_count(paths, l) > 0
    &&& forall|m: int| 0 <= m < 5 && m != l ==> language_count(paths, m) == 0
}

/// The release of the only non-empty language bucket, if exactly one is non-empty.
pub open spec fn sole_language(paths: Seq<String>) -> Option<VanillaVersion> {
    if sole_bucket(paths, 0) {
        Some(language_version(0))
    } else if sole_bucket(paths, 1) {
        Some(language_version(1))
    } else if sole_bucket(paths, 2) {
        Some(language_version(2))
    } else if sole_bucket(paths, 3) {
        Some(language_version(3))
    } else if sole_bucket(paths, 4) {
        Some(language_version(4))
    } else {
        None
    }
}

/// The release named by a pack's `vanilla_version` property, if it names one.
pub open spec fn pack_version(pack: ResourcePack) -> Option<VanillaVersion> {
    match str_prop(pack.properties@, "vanilla_version"@) {
        Some(s) => version_named(s),
        None => None,
    }
}

/// Whether the keys of each side are distinct.
pub open spec fn well_keyed(live: Seq<Resource>, pack: ResourcePack) -> bool {
    keys(live).no_duplicates() && keys(pack.resources@).no_duplicates()
}

/// The index of the best of the first `n` comparisons: the first with the
/// lowest score, or -1 where `n` is zero.
pub open spec fn best_below(rs: Seq<(VanillaVersion, MatchResourcesResult)>, n: int) -> int
    decreases n,
{
    if n <= 0 || n > rs.len() {
        -1
    } else {
        let b = best_below(rs, n - 1);
        if b < 0 || score_less(result_score(rs[n - 1].1), result_score(rs[b].1)) {
            n - 1
        } else {
            b
        }
    }
}

/// The index of the best comparison, or -1 where there is none.
pub open spec fn best_index(rs: Seq<(VanillaVersion, MatchResourcesResult)>) -> int {
    best_below(rs, rs.len() as int)
}

/// The release of the best comparison, if there is any comparison.
pub open spec fn best_version(rs: Seq<(VanillaVersion, MatchResourcesResult)>) -> Option<VanillaVersion> {
    if best_index(rs) < 0 {
        None
    } else {
        Some(rs[best_index(rs)].0)
    }
}

/// What a caller reports to a guess in progress.
pub enum GuessEvent {
    /// The entries of the game directory.
    GameDirListed(Vec<DirEntryInfo>),
    /// The data directory and the resource paths found in its archives.
    LanguagePathsScanned(String, Vec<String>),
    /// The comparison of the data directory with each reference pack, in the
    /// order the packs were found.
    PacksCompared(Vec<(VanillaVersion, MatchResourcesResult)>),
    /// Reading or comparing failed.
    Failed(GuessError),
}

/// What a guess in progress asks of its caller next.
pub enum GuessStep {
    /// Scan this data directory's archives and report the resource paths.
    ScanLanguagePaths(String),
    /// Compare this data directory with every reference pack and report the results.
    CompareResourcePacks(String),
    /// The guess found this release.
    Found(VanillaVersion),
    /// The guess gave up.
    GiveUp(GuessError),
}

/// The release that a whole guess settles on, from the game directory's
/// entries, the paths in the data directory's archives and the pack comparisons.
pub open spec fn guess_outcome(
    entries: Seq<DirEntryInfo>,
    paths: Seq<String>,
    results: Seq<(VanillaVersion, MatchResourcesResult)>,
) -> Option<VanillaVersion> {
    if data_dirs(entries).len() != 1 {
        None
    } else {
        match sole_language(paths) {
            Some(v) => Some(v),
            None => best_version(results),
        }
    }
}

impl Guess {
    /// Matches the reference pack `pack` against the resources `live` scanned
    /// from the data directory with the pack's capture settings.
    pub fn match_resources(&self, pack: &ResourcePack, live: &Vec<Resource>) -> (r: GuessResult<
        MatchResourcesResult,
    >)
        requires
            live@.len() + pack.resources@.len() <= usize::MAX,
        ensures
            match r {
                Ok(m) => {
                    &&& keys(live@).no_duplicates()
                    &&& keys(pack.resources@).no_duplicates()
                    &&& m.number_of_resources == key_count(live@, pack.resources@)
                    &&& m.number_of_resources == keys(live@).to_set().union(
                        keys(pack.resources@).to_set(),
                    ).len()
                    &&& diff_views(m.differences@) == all_diffs(
                        live@,
                        pack.resources@,
                        pack.with_file_size,
                        pack.hashes@,
                    )
                },
                Err(e) => !(keys(live@).no_duplicates() && keys(pack.resources@).no_duplicates())
                    && e is DuplicateKey,
            },
    {
        let pack_resources = &pack.resources;
        let lk = keys_of(live);
        let pk = keys_of(pack_resources);
        proof {
            assert(key_views(lk@) =~= keys(live@));
            assert(key_views(pk@) =~= keys(pack_resources@));
        }
        if !all_distinct(&lk) || !all_distinct(&pk) {
            return Err(GuessError::DuplicateKey);
        }
        let mut differences: Vec<Difference> = Vec::new();
        push_only_diffs(&mut differences, &lk, &pk, true);
        let live_only = differences.len();
        push_only_diffs(&mut differences, &pk, &lk, false);
        proof {
            lemma_only_diffs_len(keys(pack_resources@), keys(live@), false, pack_resources@.len() as int);
            assert(diff_views(differences@).len() == differences@.len());
        }
        let number_of_resources = live.len() + (differences.len() - live_only);
        proof {
            lemma_key_count_is_union(live@, pack_resources@);
        }
        let ghost start = diff_views(differences@);
        let mut i: usize = 0;
        while i < live.len()
            invariant
                i <= live@.len(),
                lk@.len() == live@.len(),
                key_views(lk@) == keys(live@),
                key_views(pk@) == keys(pack_resources@),
                pk@.len() == pack_resources@.len(),
                pack_resources == &pack.resources,
                diff_views(differences@) == start + common_diffs_below(
                    live@,
                    pack_resources@,
                    pack.with_file_size,
                    pack.hashes@,
                    i as int,
                ),
            decreases live@.len() - i,
        {
            assert(key_views(lk@)[i as int] == lk@[i as int].view());
            match find_key(&pk, &lk[i]) {
                Some(j) => {
                    push_resource_diffs(
                        &mut differences,
                        &live[i],
                        &pack_resources[j],
                        pack.with_file_size,
                        &pack.hashes,
                    );
                },
                None => {},
            }
            i = i + 1;
            assert(diff_views(differences@) =~= start + common_diffs_below(
                live@,
                pack_resources@,
                pack.with_file_size,
                pack.hashes@,
                i as int,
            ));
        }
        Ok(MatchResourcesResult { number_of_resources, differences })
    }
}

impl Guess {
    /// Guesses the version from the paths found in the data directory's
    /// archives: a release is returned when the paths of exactly one language
    /// are present.
    pub fn guess_by_language_specific_resources(&self, paths: &Vec<String>) -> (r: Option<
        VanillaVersion,
    >)
        ensures
            r == sole_language(paths@),
    {
        let prefixes: Vec<Vec<char>> = vec![
            vec!['d', 'u', 't', 'c', 'h', '/'],
            vec!['g', 'e', 'r', 'm', 'a', 'n', '/'],
            vec!['i', 't', 'a', 'l', 'i', 'a', 'n', '/'],
            vec!['p', 'o', 'l', 'i', 's', 'h', '/'],
            vec!['r', 'u', 's', 's', 'i', 'a', 'n', '/'],
        ];
        proof {
            reveal_strlit("dutch/");
            reveal_strlit("german/");
            reveal_strlit("italian/");
            reveal_strlit("polish/");
            reveal_strlit("russian/");
            assert(prefixes@[0]@ =~= language_prefix(0));
            assert(prefixes@[1]@ =~= language_prefix(1));
            assert(prefixes@[2]@ =~= language_prefix(2));
            assert(prefixes@[3]@ =~= language_prefix(3));
            assert(prefixes@[4]@ =~= language_prefix(4));
        }
        let mut counts: Vec<usize> = vec![0, 0, 0, 0, 0];
        let mut i: usize = 0;
        while i < paths.len()
            invariant
                i <= paths@.len(),
                prefixes@.len() == 5,
                forall|l: int| 0 <= l < 5 ==> #[trigger] prefixes@[l]@ == language_prefix(l),
                counts@.len() == 5,
                forall|l: int| 0 <= l < 5 ==> #[trigger] counts@[l] == language_count_below(paths@, l, i as int),
                counts@[0] + counts@[1] + counts@[2] + counts@[3] + counts@[4] <= i,
            decreases paths@.len() - i,
        {
            let p = caseless(paths[i].as_str());
            let mut l: usize = 0;
            let mut found = false;
            while l < 5 && !found
                invariant
                    l <= 5,
                    prefixes@.len() == 5,
                    forall|m: int| 0 <= m < 5 ==> #[trigger] prefixes@[m]@ == language_prefix(m),
                    found ==> l < 5 && has_prefix(p@, language_prefix(l as int)),
                    forall|m: int| 0 <= m < l ==> !has_prefix(p@, #[trigger] language_prefix(m)),
                decreases 5 - l, if found { 0int } else { 1int },
            {
                if starts_with(&p, &prefixes[l]) {
                    found = true;
                } else {
                    l = l + 1;
                }
            }
            assert(l < 5 ==> language_of(paths@[i as int]@) == l);
            assert(l == 5 ==> language_of(paths@[i as int]@) == -1);
            if l < 5 {
                let c = counts[l] + 1;
                counts.set(l, c);
            }
            i = i + 1;
        }
        let n0 = counts[0];
        let n1 = counts[1];
        let n2 = counts[2];
        let n3 = counts[3];
        let n4 = counts[4];
        assert(language_count(paths@, 0) == n0);
        assert(language_count(paths@, 1) == n1);
        assert(language_count(paths@, 2) == n2);
        assert(language_count(paths@, 3) == n3);
        assert(language_count(paths@, 4) == n4);
        if n0 > 0 && n1 == 0 && n2 == 0 && n3 == 0 && n4 == 0 {
            Some(VanillaVersion::DUTCH)
        } else if n0 == 0 && n1 > 0 && n2 == 0 && n3 == 0 && n4 == 0 {
            Some(VanillaVersion::GERMAN)
        } else if n0 == 0 && n1 == 0 && n2 > 0 && n3 == 0 && n4 == 0 {
            Some(VanillaVersion::ITALIAN)
        } else if n0 == 0 && n1 == 0 && n2 == 0 && n3 > 0 && n4 == 0 {
            Some(VanillaVersion::POLISH)
        } else if n0 == 0 && n1 == 0 && n2 == 0 && n3 == 0 && n4 > 0 {
            Some(VanillaVersion::RUSSIAN)
        } else {
            None
        }
    }
}

impl Guess {
    /// Finds the data directory among the game directory's entries: the one
    /// directory named "data" in any case.
    pub fn get_datadir(&self, entries: &Vec<DirEntryInfo>) -> (r: GuessResult<String>)
        ensures
            match r {
                Ok(d) => data_dirs(entries@).len() == 1 && d@ == data_dirs(entries@)[0],
                Err(e) => (data_dirs(entries@).len() == 0 && e is DataDirNotFound) || (
                data_dirs(entries@).len() > 1 && e is TooManyDataDirs),
            },
    {
        let data = caseless("data");
        let mut paths: Vec<String> = Vec::new();
        let mut i: usize = 0;
        while i < entries.len()
            invariant
                i <= entries@.len(),
                data@ == caseless_of("data"@),
                paths@.map_values(|s: String| s@) == data_dirs_below(entries@, i as int),
            decreases entries@.len() - i,
        {
            let e = &entries[i];
            if e.is_dir && chars_eq(&caseless(e.name.as_str()), &data) {
                paths.push(e.name.clone());
            }
            i = i + 1;
            assert(paths@.map_values(|s: String| s@) =~= data_dirs_below(entries@, i as int));
        }
        if paths.len() > 1 {
            return Err(GuessError::TooManyDataDirs);
        }
        if paths.len() == 0 {
            return Err(GuessError::DataDirNotFound);
        }
        assert(paths@.map_values(|s: String| s@)[0] == paths@[0]@);
        Ok(paths[0].clone())
    }

    /// Reads the release that a reference pack stands for.
    pub fn get_version(&self, pack: &ResourcePack) -> (r: GuessResult<VanillaVersion>)
        ensures
            match str_prop(pack.properties@, "vanilla_version"@) {
                None => r is Err && r->Err_0 is MissingVersion,
                Some(s) => match version_named(s) {
                    Some(v) => r == Ok::<VanillaVersion, GuessError>(v),
                    None => r is Err && r->Err_0 is UnknownVersion && r->Err_0->UnknownVersion_0@ == s,
                },
            },
    {
        let name = "vanilla_version".to_owned();
        match get_str(&pack.properties, &name) {
            Some(s) => match VanillaVersion::parse(&s) {
                Some(v) => Ok(v),
                None => Err(GuessError::UnknownVersion(s)),
            },
            None => Err(GuessError::MissingVersion),
        }
    }

    /// Compares a reference pack with the resources scanned from the data
    /// directory: the pack's release and the match result.
    pub fn compare_pack(&self, pack: &ResourcePack, live: &Vec<Resource>) -> (r: GuessResult<
        (VanillaVersion, MatchResourcesResult),
    >)
        requires
            live@.len() + pack.resources@.len() <= usize::MAX,
        ensures
            match r {
                Ok((v, m)) => {
                    &&& pack_version(*pack) == Some(v)
                    &&& well_keyed(live@, *pack)
                    &&& m.number_of_resources == key_count(live@, pack.resources@)
                    &&& m.number_of_resources == keys(live@).to_set().union(
                        keys(pack.resources@).to_set(),
                    ).len()
                    &&& diff_views(m.differences@) == all_diffs(
                        live@,
                        pack.resources@,
                        pack.with_file_size,
                        pack.hashes@,
                    )
                },
                Err(e) => match pack_version(*pack) {
                    None => e is MissingVersion || e is UnknownVersion,
                    Some(_) => !well_keyed(live@, *pack) && e is DuplicateKey,
                },
            },
    {
        let version = self.get_version(pack)?;
        let result = self.match_resources(pack, live)?;
        Ok((version, result))
    }

    /// Picks the release of the best-scoring comparison: the lowest total
    /// score, the first one on a tie.
    pub fn guess_by_resource_matching(
        &self,
        results: &Vec<(VanillaVersion, MatchResourcesResult)>,
    ) -> (r: Option<VanillaVersion>)
        ensures
            r == best_version(results@),
    {
        let mut best: Option<(usize, Percentages)> = None;
        let mut i: usize = 0;
        while i < results.len()
            invariant
                i <= results@.len(),
                match best {
                    Some((b, p)) => {
                        &&& best_below(results@, i as int) == b
                        &&& b < i
                        &&& p.wf()
                        &&& p.score() == result_score(results@[b as int].1)
                    },
                    None => best_below(results@, i as int) == -1 && i == 0,
                },
            decreases results@.len() - i,
        {
            let p = Percentages::from(&results[i].1);
            let replace = match &best {
                Some((_, bp)) => p.is_less_than(bp),
                None => true,
            };
            if replace {
                best = Some((i, p));
            }
            i = i + 1;
        }
        match best {
            Some((b, _)) => Some(results[b].0),
            None => None,
        }
    }

    /// Takes one step of the guess: records the release where one is found,
    /// and says what to read next.
    pub fn guess_vanilla_version(&mut self, event: GuessEvent) -> (step: GuessStep)
        ensures
            match event {
                GuessEvent::GameDirListed(es) => {
                    &&& *final(self) == *old(self)
                    &&& match step {
                        GuessStep::ScanLanguagePaths(d) => data_dirs(es@).len() == 1 && d@
                            == data_dirs(es@)[0],
                        GuessStep::GiveUp(e) => (data_dirs(es@).len() == 0 && e is DataDirNotFound)
                            || (data_dirs(es@).len() > 1 && e is TooManyDataDirs),
                        _ => false,
                    }
                },
                GuessEvent::LanguagePathsScanned(d, ps) => match sole_language(ps@) {
                    Some(v) => step == GuessStep::Found(v) && final(self).vanilla_version == Some(v),
                    None => step == GuessStep::CompareResourcePacks(d) && *final(self) == *old(self),
                },
                GuessEvent::PacksCompared(rs) => match best_version(rs@) {
                    Some(v) => step == GuessStep::Found(v) && final(self).vanilla_version == Some(v),
                    None => step is GiveUp && step->GiveUp_0 is GiveUp && *final(self) == *old(self),
                },
                GuessEvent::Failed(e) => step == GuessStep::GiveUp(e) && *final(self) == *old(self),
            },
    {
        match event {
            GuessEvent::GameDirListed(entries) => match self.get_datadir(&entries) {
                Ok(d) => GuessStep::ScanLanguagePaths(d),
                Err(e) => GuessStep::GiveUp(e),
            },
            GuessEvent::LanguagePathsScanned(datadir, paths) => {
                match self.guess_by_language_specific_resources(&paths) {
                    Some(v) => {
                        self.vanilla_version = Some(v);
                        GuessStep::Found(v)
                    },
                    None => GuessStep::CompareResourcePacks(datadir),
                }
            },
            GuessEvent::PacksCompared(results) => match self.guess_by_resource_matching(&results) {
                Some(v) => {
                    self.vanilla_version = Some(v);
                    GuessStep::Found(v)
                },
                None => GuessStep::GiveUp(GuessError::GiveUp),
            },
            GuessEvent::Failed(e) => GuessStep::GiveUp(e),
        }
    }
}

/// Starts guessing the vanilla version of a game directory from its entries.
/// The guess holds no release until a later step finds one; a guess that gives
/// up keeps holding none.
pub fn guess_vanilla_version(entries: Vec<DirEntryInfo>) -> (r: (Guess, GuessStep))
    ensures
        r.0.vanilla_version == None::<VanillaVersion>,
        match r.1 {
            GuessStep::ScanLanguagePaths(d) => data_dirs(entries@).len() == 1 && d@ == data_dirs(
                entries@,
            )[0],
            GuessStep::GiveUp(e) => (data_dirs(entries@).len() == 0 && e is DataDirNotFound) || (
            data_dirs(entries@).len() > 1 && e is TooManyDataDirs),
            _ => false,
        },
{
    let mut guess = Guess::default();
    let step = guess.guess_vanilla_version(GuessEvent::GameDirListed(entries));
    (guess, step)
}

/// Stage one settles on a release exactly when exactly one language bucket is
/// non-empty, and then on that bucket's release.
pub proof fn lemma_language_guess_exact(paths: Seq<String>)
    ensures
        sole_language(paths) is Some <==> exists|l: int| sole_bucket(paths, l),
        forall|l: int| #[trigger] sole_bucket(paths, l) ==> sole_language(paths) == Some(language_version(l)),
{
    assert forall|l: int| #[trigger] sole_bucket(paths, l) implies sole_language(paths) == Some(language_version(l)) by {
        assert forall|m: int| 0 <= m < l implies !sole_bucket(paths, m) by {
            assert(language_count(paths, l) > 0);
        }
    }
    if sole_language(paths) is Some {
        if sole_bucket(paths, 0) {
        } else if sole_bucket(paths, 1) {
        } else if sole_bucket(paths, 2) {
        } else if sole_bucket(paths, 3) {
        } else {
            assert(sole_bucket(paths, 4));
        }
    }
}

/// Order facts of scores with positive denominators.
proof fn lemma_score_order(a: (int, int), b: (int, int), c: (int, int))
    requires
        a.1 > 0,
        b.1 > 0,
        c.1 > 0,
    ensures
        score_less(a, b) ==> !score_less(b, a),
        score_less(a, b) && !score_less(c, b) ==> score_less(a, c),
        score_less(a, b) && score_less(b, c) ==> score_less(a, c),
{
    let (a0, a1) = a;
    let (b0, b1) = b;
    let (c0, c1) = c;
    assert((a0 * c1) * b1 == (a0 * b1) * c1) by (nonlinear_arith);
    assert((c0 * a1) * b1 == (c0 * b1) * a1) by (nonlinear_arith);
    assert((b0 * a1) * c1 == (b0 * c1) * a1) by (nonlinear_arith);
    if score_less(a, b) {
        assert((a0 * b1) * c1 < (b0 * a1) * c1) by (nonlinear_arith)
            requires a0 * b1 < b0 * a1, c1 > 0;
    }
    if !score_less(c, b) {
        assert((c0 * b1) * a1 >= (b0 * c1) * a1) by (nonlinear_arith)
            requires c0 * b1 >= b0 * c1, a1 > 0;
    }
    if score_less(b, c) {
        assert((b0 * c1) * a1 < (c0 * b1) * a1) by (nonlinear_arith)
            requires b0 * c1 < c0 * b1, a1 > 0;
    }
    if (score_less(a, b) && !score_less(c, b)) || (score_less(a, b) && score_less(b, c)) {
        assert((a0 * c1) * b1 < (c0 * a1) * b1);
        assert(a0 * c1 < c0 * a1) by (nonlinear_arith)
            requires (a0 * c1) * b1 < (c0 * a1) * b1, b1 > 0;
    }
}

proof fn lemma_best_below(rs: Seq<(VanillaVersion, MatchResourcesResult)>, n: int)
    requires
        0 <= n <= rs.len(),
    ensures
        n == 0 ==> best_below(rs, n) == -1,
        n > 0 ==> 0 <= best_below(rs, n) < n,
        n > 0 ==> forall|j: int|
            0 <= j < n ==> !score_less(
                #[trigger] result_score(rs[j].1),
                result_score(rs[best_below(rs, n)].1),
            ),
        n > 0 ==> forall|j: int|
            0 <= j < best_below(rs, n) ==> score_less(
                result_score(rs[best_below(rs, n)].1),
                #[trigger] result_score(rs[j].1),
            ),
    decreases n,
{
    if n > 0 {
        lemma_best_below(rs, n - 1);
        let b = best_below(rs, n - 1);
        let sn = result_score(rs[n - 1].1);
        if b >= 0 {
            let sb = result_score(rs[b].1);
            assert forall|j: int| 0 <= j < n implies #[trigger] result_score(rs[j].1).1 > 0 by {}
            if score_less(sn, sb) {
                assert forall|j: int| 0 <= j < n implies !score_less(
                    #[trigger] result_score(rs[j].1),
                    sn,
                ) by {
                    lemma_score_order(sn, sb, result_score(rs[j].1));
                    lemma_score_order(result_score(rs[j].1), sn, sn);
                }
                assert forall|j: int| 0 <= j < n - 1 implies score_less(
                    sn,
                    #[trigger] result_score(rs[j].1),
                ) by {
                    lemma_score_order(sn, sb, result_score(rs[j].1));
                }
            }
        }
    }
}

/// Stage two picks, among the comparisons, the first with the lowest score:
/// no comparison scores lower, and every earlier one scores strictly higher,
/// so of two equal scores the one found first wins.
pub proof fn lemma_best_is_first_lowest(rs: Seq<(VanillaVersion, MatchResourcesResult)>)
    requires
        rs.len() > 0,
    ensures
        0 <= best_index(rs) < rs.len(),
        best_version(rs) == Some(rs[best_index(rs)].0),
        forall|j: int|
            0 <= j < rs.len() ==> !score_less(
                #[trigger] result_score(rs[j].1),
                result_score(rs[best_index(rs)].1),
            ),
        forall|j: int|
            0 <= j < best_index(rs) ==> score_less(
                result_score(rs[best_index(rs)].1),
                #[trigger] result_score(rs[j].1),
            ),
{
    lemma_best_below(rs, rs.len() as int);
}

/// A guess over the same directory listing, the same archive paths and the
/// same pack comparisons settles on the same release every time.
pub proof fn lemma_guess_reproducible(
    entries: Seq<DirEntryInfo>,
    paths: Seq<String>,
    results: Seq<(VanillaVersion, MatchResourcesResult)>,
    entries2: Seq<DirEntryInfo>,
    paths2: Seq<String>,
    results2: Seq<(VanillaVersion, MatchResourcesResult)>,
)
    requires
        entries == entries2,
        paths == paths2,
        results == results2,
    ensures
        guess_outcome(entries, paths, results) == guess_outcome(entries2, paths2, results2),
{
}

} // verus!
