use crate::error::{LoadError, LoadErrorView, ParseError};
use crate::types::{
    spec_front_matter, spec_parse_proof, spec_parse_week, parse_proof, parse_week, Proof,
    ProofView, Week, WeekView,
};
use std::collections::HashMap;
use vstd::prelude::*;

verus! {

broadcast use vstd::std_specs::hash::group_hash_axioms;

/// One proof document handed to the loader: where it was found, and its
/// whole text.
#[derive(Debug)]
pub struct ProofFile {
    pub path: String,
    pub text: String,
}

/// The mathematical content of a [`ProofFile`].
pub ghost struct ProofFileView {
    pub path: Seq<char>,
    pub text: Seq<char>,
}

impl View for ProofFile {
    type V = ProofFileView;

    open spec fn view(&self) -> ProofFileView {
        ProofFileView { path: self.path@, text: self.text@ }
    }
}

/// One week descriptor handed to the loader: its path, its filename stem
/// (the name without directories and extension), and its whole text.
#[derive(Debug)]
pub struct WeekFile {
    pub path: String,
    pub stem: String,
    pub text: String,
}

/// The mathematical content of a [`WeekFile`].
pub ghost struct WeekFileView {
    pub path: Seq<char>,
    pub stem: Seq<char>,
    pub text: Seq<char>,
}

impl View for WeekFile {
    type V = WeekFileView;

    open spec fn view(&self) -> WeekFileView {
        WeekFileView { path: self.path@, stem: self.stem@, text: self.text@ }
    }
}

pub open spec fn proof_file_views(files: Seq<ProofFile>) -> Seq<ProofFileView> {
    files.map_values(|f: ProofFile| f@)
}

pub open spec fn week_file_views(files: Seq<WeekFile>) -> Seq<WeekFileView> {
    files.map_values(|f: WeekFile| f@)
}

pub open spec fn proof_map_view(m: Map<u64, Proof>) -> Map<u64, ProofView> {
    m.map_values(|p: Proof| p@)
}

pub open spec fn week_map_view(m: Map<u8, Week>) -> Map<u8, WeekView> {
    m.map_values(|w: Week| w@)
}

// ---------------------------------------------------------------------------
// Loading proofs
// ---------------------------------------------------------------------------

/// Folds the files from `i` on into `acc`, keyed by each proof's id, a
/// later file overwriting an earlier one with the same id; stops at the
/// first file that fails to parse and reports it with its path.
pub open spec fn spec_load_proofs_from(
    fs: Seq<ProofFileView>,
    i: int,
    acc: Map<u64, ProofView>,
) -> Result<Map<u64, ProofView>, LoadErrorView>
    decreases fs.len() - i,
{
    if i >= fs.len() {
        Ok(acc)
    } else {
        match spec_parse_proof(fs[i].text) {
            Err(e) => Err(LoadErrorView { path: fs[i].path, kind: e }),
            Ok(p) => spec_load_proofs_from(fs, i + 1, acc.insert(p.pid, p)),
        }
    }
}

/// What `load_proofs` returns on a given list of files.
pub open spec fn spec_load_proofs(fs: Seq<ProofFileView>) -> Result<
    Map<u64, ProofView>,
    LoadErrorView,
> {
    spec_load_proofs_from(fs, 0, Map::empty())
}

/// Parses every given proof file and aggregates the results into a map
/// keyed by proof id. Fail-fast: the first file that does not parse aborts
/// the whole load, and no map is returned.
pub fn load_proofs(files: &Vec<ProofFile>) -> (r: Result<HashMap<u64, Proof>, LoadError>)
    ensures
        (match r {
            Ok(m) => spec_load_proofs(proof_file_views(files@)) == Ok::<
                Map<u64, ProofView>,
                LoadErrorView,
            >(proof_map_view(m@)),
            Err(e) => spec_load_proofs(proof_file_views(files@)) == Err::<
                Map<u64, ProofView>,
                LoadErrorView,
            >(e@),
        }),
{
    let ghost fs = proof_file_views(files@);
    let mut m: HashMap<u64, Proof> = HashMap::new();
    assert(proof_map_view(m@) =~= Map::<u64, ProofView>::empty());
    let mut i: usize = 0;
    while i < files.len()
        invariant
            0 <= i <= files@.len(),
            fs == proof_file_views(files@),
            spec_load_proofs(fs) == spec_load_proofs_from(fs, i as int, proof_map_view(m@)),
        decreases files@.len() - i,
    {
        assert(fs[i as int].text == files@[i as int].text@);
        match parse_proof(files[i].text.as_str()) {
            Err(e) => {
                let err = LoadError { path: files[i].path.clone(), kind: e };
                assert(err@ == LoadErrorView { path: fs[i as int].path, kind: e });
                return Err(err);
            },
            Ok(p) => {
                let ghost m_old = m@;
                let ghost pid = p.pid;
                let ghost pv = p@;
                m.insert(p.pid, p);
                assert(proof_map_view(m@) =~= proof_map_view(m_old).insert(pid, pv));
            },
        }
        i += 1;
    }
    Ok(m)
}

// ---------------------------------------------------------------------------
// Loading weeks
// ---------------------------------------------------------------------------

/// Folds the files from `i` on into `acc`, keyed by each week's number as
/// derived from its filename stem; stops at the first file that fails.
pub open spec fn spec_load_weeks_from(
    fs: Seq<WeekFileView>,
    i: int,
    acc: Map<u8, WeekView>,
) -> Result<Map<u8, WeekView>, LoadErrorView>
    decreases fs.len() - i,
{
    if i >= fs.len() {
        Ok(acc)
    } else {
        match spec_parse_week(fs[i].text, fs[i].stem) {
            Err(e) => Err(LoadErrorView { path: fs[i].path, kind: e }),
            Ok(w) => spec_load_weeks_from(fs, i + 1, acc.insert(w.number, w)),
        }
    }
}

/// What `load_weeks` returns on a given list of files.
pub open spec fn spec_load_weeks(fs: Seq<WeekFileView>) -> Result<
    Map<u8, WeekView>,
    LoadErrorView,
> {
    spec_load_weeks_from(fs, 0, Map::empty())
}

/// Parses every given week descriptor and aggregates the results into a
/// map keyed by week number. Fail-fast, as `load_proofs` is.
pub fn load_weeks(files: &Vec<WeekFile>) -> (r: Result<HashMap<u8, Week>, LoadError>)
    ensures
        (match r {
            Ok(m) => spec_load_weeks(week_file_views(files@)) == Ok::<
                Map<u8, WeekView>,
                LoadErrorView,
            >(week_map_view(m@)),
            Err(e) => spec_load_weeks(week_file_views(files@)) == Err::<
                Map<u8, WeekView>,
                LoadErrorView,
            >(e@),
        }),
{
    let ghost fs = week_file_views(files@);
    let mut m: HashMap<u8, Week> = HashMap::new();
    assert(week_map_view(m@) =~= Map::<u8, WeekView>::empty());
    let mut i: usize = 0;
    while i < files.len()
        invariant
            0 <= i <= files@.len(),
            fs == week_file_views(files@),
            spec_load_weeks(fs) == spec_load_weeks_from(fs, i as int, week_map_view(m@)),
        decreases files@.len() - i,
    {
        assert(fs[i as int].text == files@[i as int].text@);
        assert(fs[i as int].stem == files@[i as int].stem@);
        match parse_week(files[i].text.as_str(), files[i].stem.as_str()) {
            Err(e) => {
                let err = LoadError { path: files[i].path.clone(), kind: e };
                assert(err@ == LoadErrorView { path: fs[i as int].path, kind: e });
                return Err(err);
            },
            Ok(w) => {
                let ghost m_old = m@;
                let ghost num = w.number;
                let ghost wv = w@;
                m.insert(w.number, w);
                assert(week_map_view(m@) =~= week_map_view(m_old).insert(num, wv));
            },
        }
        i += 1;
    }
    Ok(m)
}

// ---------------------------------------------------------------------------
// Laws
// ---------------------------------------------------------------------------

/// Every file from `i` on parses.
pub open spec fn all_proofs_parse(fs: Seq<ProofFileView>, i: int) -> bool {
    forall|j: int| i <= j < fs.len() ==> spec_parse_proof(#[trigger] fs[j].text) is Ok
}

/// The parse of the file at `j`.
pub open spec fn parsed_proof(fs: Seq<ProofFileView>, j: int) -> ProofView {
    spec_parse_proof(fs[j].text)->Ok_0
}

/// The parsed ids of the files from `i` on are pairwise distinct.
pub open spec fn distinct_pids(fs: Seq<ProofFileView>, i: int) -> bool {
    forall|j: int, k: int|
        i <= j < k < fs.len() ==> #[trigger] parsed_proof(fs, j).pid != #[trigger] parsed_proof(
            fs,
            k,
        ).pid
}

proof fn lemma_load_proofs_from_ok(fs: Seq<ProofFileView>, i: int, acc: Map<u64, ProofView>)
    requires
        0 <= i <= fs.len(),
        all_proofs_parse(fs, i),
        distinct_pids(fs, i),
    ensures
        spec_load_proofs_from(fs, i, acc) is Ok,
        forall|k: u64|
            #[trigger] spec_load_proofs_from(fs, i, acc)->Ok_0.contains_key(k) <==> (
            acc.contains_key(k) || exists|j: int|
                i <= j < fs.len() && #[trigger] parsed_proof(fs, j).pid == k),
        forall|j: int|
            i <= j < fs.len() ==> spec_load_proofs_from(fs, i, acc)->Ok_0[(
            #[trigger] parsed_proof(fs, j)).pid] == parsed_proof(fs, j),
        forall|k: u64|
            acc.contains_key(k) && !(exists|j: int|
                i <= j < fs.len() && #[trigger] parsed_proof(fs, j).pid == k)
                ==> #[trigger] spec_load_proofs_from(fs, i, acc)->Ok_0[k] == acc[k],
    decreases fs.len() - i,
{
    if i < fs.len() {
        let p = parsed_proof(fs, i);
        let acc2 = acc.insert(p.pid, p);
        lemma_load_proofs_from_ok(fs, i + 1, acc2);
        let r = spec_load_proofs_from(fs, i, acc);
        assert(r == spec_load_proofs_from(fs, i + 1, acc2));
        assert forall|k: u64| #[trigger] r->Ok_0.contains_key(k) implies (acc.contains_key(k)
            || exists|j: int| i <= j < fs.len() && #[trigger] parsed_proof(fs, j).pid == k) by {
            if !acc.contains_key(k) {
                if acc2.contains_key(k) {
                    assert(parsed_proof(fs, i).pid == k);
                } else {
                    let j = choose|j: int|
                        i + 1 <= j < fs.len() && #[trigger] parsed_proof(fs, j).pid == k;
                    assert(i <= j < fs.len() && parsed_proof(fs, j).pid == k);
                }
            }
        }
        assert forall|k: u64|
            (acc.contains_key(k) || exists|j: int|
                i <= j < fs.len() && #[trigger] parsed_proof(fs, j).pid == k) implies r
            ->Ok_0.contains_key(k) by {
            if acc.contains_key(k) {
                assert(acc2.contains_key(k));
            } else {
                let j = choose|j: int|
                    i <= j < fs.len() && #[trigger] parsed_proof(fs, j).pid == k;
                if j == i {
                    assert(acc2.contains_key(k));
                } else {
                    assert(i + 1 <= j < fs.len() && parsed_proof(fs, j).pid == k);
                }
            }
        }
        assert forall|j: int| i <= j < fs.len() implies r->Ok_0[(#[trigger] parsed_proof(
            fs,
            j,
        )).pid] == parsed_proof(fs, j) by {
            if j == i {
                assert(acc2.contains_key(p.pid) && acc2[p.pid] == p);
                assert(!(exists|l: int|
                    i + 1 <= l < fs.len() && #[trigger] parsed_proof(fs, l).pid == p.pid));
            }
        }
        assert forall|k: u64|
            acc.contains_key(k) && !(exists|j: int|
                i <= j < fs.len() && #[trigger] parsed_proof(fs, j).pid == k) implies #[trigger] r
            ->Ok_0[k] == acc[k] by {
            assert(parsed_proof(fs, i).pid != k);
            assert(acc2.contains_key(k) && acc2[k] == acc[k]);
            assert(!(exists|j: int|
                i + 1 <= j < fs.len() && #[trigger] parsed_proof(fs, j).pid == k));
        }
    }
}

proof fn lemma_parse_proof_content(s: Seq<char>)
    requires
        spec_parse_proof(s) is Ok,
    ensures
        spec_front_matter(s) is Some,
        spec_parse_proof(s)->Ok_0.content == spec_front_matter(s)->Some_0.1,
{
}

/// When every file parses and their ids are pairwise distinct, the load
/// succeeds, its key set is exactly the set of those ids, each id maps to
/// the parse of its file, and each record's `content` is exactly the text
/// after that file's front-matter block.
pub proof fn lemma_load_proofs_complete(fs: Seq<ProofFileView>)
    requires
        all_proofs_parse(fs, 0),
        distinct_pids(fs, 0),
    ensures
        spec_load_proofs(fs) is Ok,
        forall|j: int|
            0 <= j < fs.len() ==> spec_load_proofs(fs)->Ok_0.contains_key(
                (#[trigger] parsed_proof(fs, j)).pid,
            ) && spec_load_proofs(fs)->Ok_0[parsed_proof(fs, j).pid] == parsed_proof(fs, j),
        forall|k: u64|
            #[trigger] spec_load_proofs(fs)->Ok_0.contains_key(k) ==> exists|j: int|
                0 <= j < fs.len() && #[trigger] parsed_proof(fs, j).pid == k,
        forall|j: int|
            0 <= j < fs.len() ==> spec_load_proofs(fs)->Ok_0[(#[trigger] parsed_proof(
                fs,
                j,
            )).pid].content == spec_front_matter(fs[j].text)->Some_0.1,
{
    lemma_load_proofs_from_ok(fs, 0, Map::empty());
    assert forall|j: int| 0 <= j < fs.len() implies spec_load_proofs(fs)->Ok_0[(
    #[trigger] parsed_proof(fs, j)).pid].content == spec_front_matter(fs[j].text)->Some_0.1 by {
        lemma_parse_proof_content(fs[j].text);
    }
}

proof fn lemma_load_proofs_from_ok_iff(fs: Seq<ProofFileView>, i: int, acc: Map<u64, ProofView>)
    requires
        0 <= i <= fs.len(),
    ensures
        spec_load_proofs_from(fs, i, acc) is Ok <==> all_proofs_parse(fs, i),
    decreases fs.len() - i,
{
    if i < fs.len() {
        match spec_parse_proof(fs[i].text) {
            Err(_) => {
                assert(!all_proofs_parse(fs, i));
            },
            Ok(p) => {
                lemma_load_proofs_from_ok_iff(fs, i + 1, acc.insert(p.pid, p));
                if all_proofs_parse(fs, i + 1) {
                    assert forall|j: int|
                        i <= j < fs.len() implies spec_parse_proof(#[trigger] fs[j].text) is Ok by {
                        if j > i {
                            assert(spec_parse_proof(fs[j].text) is Ok);
                        }
                    }
                }
            },
        }
    }
}

/// Fail-fast, success side: the load succeeds exactly when every file
/// parses; there is no partial or best-effort mode.
pub proof fn lemma_load_proofs_ok_iff(fs: Seq<ProofFileView>)
    ensures
        spec_load_proofs(fs) is Ok <==> all_proofs_parse(fs, 0),
{
    lemma_load_proofs_from_ok_iff(fs, 0, Map::empty());
}

proof fn lemma_load_proofs_from_first_error(
    fs: Seq<ProofFileView>,
    i: int,
    acc: Map<u64, ProofView>,
    j: int,
)
    requires
        0 <= i <= j < fs.len(),
        forall|k: int| i <= k < j ==> spec_parse_proof(#[trigger] fs[k].text) is Ok,
        spec_parse_proof(fs[j].text) is Err,
    ensures
        spec_load_proofs_from(fs, i, acc) == Err::<Map<u64, ProofView>, LoadErrorView>(
            LoadErrorView { path: fs[j].path, kind: spec_parse_proof(fs[j].text)->Err_0 },
        ),
    decreases fs.len() - i,
{
    if i < j {
        let p = spec_parse_proof(fs[i].text)->Ok_0;
        lemma_load_proofs_from_first_error(fs, i + 1, acc.insert(p.pid, p), j);
    }
}

/// Fail-fast, error side: when the first file that does not parse stands
/// at `j`, the load reports that file's path and that file's error.
pub proof fn lemma_load_proofs_first_error(fs: Seq<ProofFileView>, j: int)
    requires
        0 <= j < fs.len(),
        forall|k: int| 0 <= k < j ==> spec_parse_proof(#[trigger] fs[k].text) is Ok,
        spec_parse_proof(fs[j].text) is Err,
    ensures
        spec_load_proofs(fs) == Err::<Map<u64, ProofView>, LoadErrorView>(
            LoadErrorView { path: fs[j].path, kind: spec_parse_proof(fs[j].text)->Err_0 },
        ),
{
    lemma_load_proofs_from_first_error(fs, 0, Map::empty(), j);
}

/// The load is a function of the files alone: loading an unchanged tree
/// twice yields the same mapping.
pub proof fn lemma_load_proofs_deterministic(
    fs: Seq<ProofFileView>,
    m1: Map<u64, ProofView>,
    m2: Map<u64, ProofView>,
)
    requires
        spec_load_proofs(fs) == Ok::<Map<u64, ProofView>, LoadErrorView>(m1),
        spec_load_proofs(fs) == Ok::<Map<u64, ProofView>, LoadErrorView>(m2),
    ensures
        m1 == m2,
{
}

proof fn lemma_load_weeks_from_numbers(fs: Seq<WeekFileView>, i: int, acc: Map<u8, WeekView>)
    requires
        0 <= i <= fs.len(),
        forall|k: u8| #[trigger] acc.contains_key(k) ==> acc[k].number == k,
    ensures
        (match spec_load_weeks_from(fs, i, acc) {
            Ok(m) => forall|k: u8| #[trigger] m.contains_key(k) ==> m[k].number == k,
            Err(_) => true,
        }),
    decreases fs.len() - i,
{
    if i < fs.len() {
        match spec_parse_week(fs[i].text, fs[i].stem) {
            Err(_) => {},
            Ok(w) => {
                lemma_load_weeks_from_numbers(fs, i + 1, acc.insert(w.number, w));
            },
        }
    }
}

/// Every week file from `i` on parses against its stem.
pub open spec fn all_weeks_parse(fs: Seq<WeekFileView>, i: int) -> bool {
    forall|j: int|
        i <= j < fs.len() ==> spec_parse_week((#[trigger] fs[j]).text, fs[j].stem) is Ok
}

proof fn lemma_load_weeks_from_ok_iff(fs: Seq<WeekFileView>, i: int, acc: Map<u8, WeekView>)
    requires
        0 <= i <= fs.len(),
    ensures
        spec_load_weeks_from(fs, i, acc) is Ok <==> all_weeks_parse(fs, i),
    decreases fs.len() - i,
{
    if i < fs.len() {
        match spec_parse_week(fs[i].text, fs[i].stem) {
            Err(_) => {
                assert(!all_weeks_parse(fs, i));
            },
            Ok(w) => {
                lemma_load_weeks_from_ok_iff(fs, i + 1, acc.insert(w.number, w));
                if all_weeks_parse(fs, i + 1) {
                    assert forall|j: int|
                        i <= j < fs.len() implies spec_parse_week(
                        (#[trigger] fs[j]).text,
                        fs[j].stem,
                    ) is Ok by {
                        if j > i {
                            assert(spec_parse_week(fs[j].text, fs[j].stem) is Ok);
                        }
                    }
                }
            },
        }
    }
}

/// Fail-fast, success side: the week load succeeds exactly when every
/// descriptor parses; a single stray file fails the whole load.
pub proof fn lemma_load_weeks_ok_iff(fs: Seq<WeekFileView>)
    ensures
        spec_load_weeks(fs) is Ok <==> all_weeks_parse(fs, 0),
{
    lemma_load_weeks_from_ok_iff(fs, 0, Map::empty());
}

proof fn lemma_load_weeks_from_first_error(
    fs: Seq<WeekFileView>,
    i: int,
    acc: Map<u8, WeekView>,
    j: int,
)
    requires
        0 <= i <= j < fs.len(),
        forall|k: int| i <= k < j ==> spec_parse_week((#[trigger] fs[k]).text, fs[k].stem) is Ok,
        spec_parse_week(fs[j].text, fs[j].stem) is Err,
    ensures
        spec_load_weeks_from(fs, i, acc) == Err::<Map<u8, WeekView>, LoadErrorView>(
            LoadErrorView {
                path: fs[j].path,
                kind: spec_parse_week(fs[j].text, fs[j].stem)->Err_0,
            },
        ),
    decreases fs.len() - i,
{
    if i < j {
        let w = spec_parse_week(fs[i].text, fs[i].stem)->Ok_0;
        lemma_load_weeks_from_first_error(fs, i + 1, acc.insert(w.number, w), j);
    }
}

/// Fail-fast, error side: when the first week file that does not parse
/// stands at `j`, the load reports that file's path and that file's error.
pub proof fn lemma_load_weeks_first_error(fs: Seq<WeekFileView>, j: int)
    requires
        0 <= j < fs.len(),
        forall|k: int| 0 <= k < j ==> spec_parse_week((#[trigger] fs[k]).text, fs[k].stem) is Ok,
        spec_parse_week(fs[j].text, fs[j].stem) is Err,
    ensures
        spec_load_weeks(fs) == Err::<Map<u8, WeekView>, LoadErrorView>(
            LoadErrorView {
                path: fs[j].path,
                kind: spec_parse_week(fs[j].text, fs[j].stem)->Err_0,
            },
        ),
{
    lemma_load_weeks_from_first_error(fs, 0, Map::empty(), j);
}

/// Every loaded week sits under its own number: the map's key and the
/// record's `number`, both derived from the filename stem, agree.
pub proof fn lemma_load_weeks_numbers(fs: Seq<WeekFileView>)
    ensures
        (match spec_load_weeks(fs) {
            Ok(m) => forall|k: u8| #[trigger] m.contains_key(k) ==> m[k].number == k,
            Err(_) => true,
        }),
{
    lemma_load_weeks_from_numbers(fs, 0, Map::empty());
}

} // verus!
