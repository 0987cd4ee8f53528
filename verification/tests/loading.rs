use kholles::error::ParseError;
use kholles::load::{load_proofs, load_weeks, ProofFile, WeekFile};

fn pf(path: &str, text: &str) -> ProofFile {
    ProofFile { path: String::from(path), text: String::from(text) }
}

fn wf(path: &str, stem: &str, text: &str) -> WeekFile {
    WeekFile { path: String::from(path), stem: String::from(stem), text: String::from(text) }
}

#[test]
fn load_proofs_keys_are_the_ids_and_content_is_exact() {
    let files = vec![
        pf(
            "proofs/a.md",
            "---\npid: 1\ntitle: First\nauthors: [alice]\ndate: 01/10/2024\ntags: []\n---\nbody one\n",
        ),
        pf(
            "proofs/deep/b.md",
            "---\npid: 2\ntitle: Second\nauthors: [bob]\ndate: 02/10/2024\ntags: []\n---\nbody two",
        ),
    ];
    let m = load_proofs(&files).unwrap();
    assert_eq!(m.len(), 2);
    let mut keys: Vec<u64> = m.keys().copied().collect();
    keys.sort();
    assert_eq!(keys, vec![1, 2]);
    assert_eq!(m.get(&1).unwrap().content, "body one\n");
    assert_eq!(m.get(&2).unwrap().content, "body two");
}

#[test]
fn load_proofs_fails_fast_on_a_malformed_date() {
    let files = vec![
        pf(
            "proofs/good.md",
            "---\npid: 1\ntitle: Fine\nauthors: []\ndate: 01/10/2024\ntags: []\n---\nok\n",
        ),
        pf(
            "proofs/bad.md",
            "---\npid: 2\ntitle: Broken\nauthors: []\ndate: 31-02/2024\ntags: []\n---\nbad\n",
        ),
    ];
    let err = load_proofs(&files).unwrap_err();
    assert_eq!(err.path, "proofs/bad.md");
    assert_eq!(err.kind, ParseError::DateFormatMismatch);
}

#[test]
fn load_proofs_duplicate_id_keeps_the_later_file() {
    let files = vec![
        pf("proofs/a.md", "---\npid: 5\ntitle: Early\nauthors: []\ndate: 01/10/2024\ntags: []\n---\nearly\n"),
        pf("proofs/b.md", "---\npid: 5\ntitle: Late\nauthors: []\ndate: 02/10/2024\ntags: []\n---\nlate\n"),
    ];
    let m = load_proofs(&files).unwrap();
    assert_eq!(m.len(), 1);
    assert_eq!(m.get(&5).unwrap().title, "Late");
    assert_eq!(m.get(&5).unwrap().content, "late\n");
}

#[test]
fn load_proofs_twice_yields_equal_maps() {
    let files = vec![
        pf("proofs/a.md", "---\npid: 1\ntitle: A\nauthors: [x]\ndate: 01/10/2024\ntags: [t]\n---\none\n"),
        pf("proofs/b.md", "---\npid: 2\ntitle: B\nauthors: [y]\ndate: 02/10/2024\ntags: []\n---\ntwo\n"),
    ];
    let m1 = load_proofs(&files).unwrap();
    let m2 = load_proofs(&files).unwrap();
    assert_eq!(m1, m2);
}

#[test]
fn load_weeks_maps_each_number_to_its_descriptor() {
    let files = vec![
        wf("weeks/01.yaml", "01", "date: 07/10/2024\ndescription: first week\nproofs: [1, 2]\n"),
        wf("weeks/2.yaml", "2", "date: 14/10/2024\ndescription: second week\nproofs: []\n"),
    ];
    let m = load_weeks(&files).unwrap();
    assert_eq!(m.len(), 2);
    assert_eq!(m.get(&1).unwrap().number, 1);
    assert_eq!(m.get(&1).unwrap().description, "first week");
    assert_eq!(m.get(&2).unwrap().number, 2);
    assert_eq!(m.get(&2).unwrap().proofs, Vec::<u64>::new());
}

#[test]
fn load_weeks_fails_whole_load_on_a_non_numeric_stem() {
    let files = vec![
        wf("weeks/01.yaml", "01", "date: 07/10/2024\ndescription: fine\nproofs: []\n"),
        wf("weeks/abc.yaml", "abc", "date: 14/10/2024\ndescription: stray\nproofs: []\n"),
    ];
    let err = load_weeks(&files).unwrap_err();
    assert_eq!(err.path, "weeks/abc.yaml");
    assert_eq!(err.kind, ParseError::InvalidIdentifier);
}

#[test]
fn load_weeks_duplicate_number_keeps_the_later_file() {
    let files = vec![
        wf("weeks/7.yaml", "7", "date: 07/10/2024\ndescription: early\nproofs: []\n"),
        wf("weeks/07.yaml", "07", "date: 14/10/2024\ndescription: late\nproofs: [1]\n"),
    ];
    let m = load_weeks(&files).unwrap();
    assert_eq!(m.len(), 1);
    assert_eq!(m.get(&7).unwrap().description, "late");
}

#[test]
fn empty_trees_load_to_empty_maps() {
    assert!(load_proofs(&Vec::new()).unwrap().is_empty());
    assert!(load_weeks(&Vec::new()).unwrap().is_empty());
}
