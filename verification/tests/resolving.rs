use kholles::date::Date;
use kholles::load::{load_proofs, ProofFile};
use kholles::resolve::{resolve_week_proofs, str_cmp, week_authors, StrCmp};
use kholles::types::Proof;
use std::collections::HashMap;

fn mk_proof(pid: u64, authors: Vec<&str>) -> Proof {
    Proof {
        pid,
        title: format!("proof {}", pid),
        note: None,
        authors: authors.into_iter().map(String::from).collect(),
        date: Date { year: 2024, month: 10, day: 3 },
        tags: Vec::new(),
        content: String::from("body"),
    }
}

#[test]
fn dangling_reference_resolves_to_one_none_slot() {
    let mut m: HashMap<u64, Proof> = HashMap::new();
    m.insert(1, mk_proof(1, vec!["a"]));
    m.insert(3, mk_proof(3, vec!["b"]));
    let ids = vec![1, 2, 3];
    let r = resolve_week_proofs(&ids, &m);
    assert_eq!(r.len(), 3);
    assert_eq!(r[0].as_ref().unwrap().pid, 1);
    assert!(r[1].is_none());
    assert_eq!(r[2].as_ref().unwrap().pid, 3);
}

#[test]
fn authors_are_deduplicated_and_sorted() {
    let resolved = vec![Some(mk_proof(1, vec!["b", "a"])), Some(mk_proof(2, vec!["a", "c"]))];
    let authors = week_authors(&resolved);
    assert_eq!(authors, vec![String::from("a"), String::from("b"), String::from("c")]);
}

#[test]
fn authors_skip_dangling_slots_and_keep_duplicates_once() {
    let resolved = vec![
        Some(mk_proof(1, vec!["zoe", "ada"])),
        None,
        Some(mk_proof(2, vec!["ada", "ada", "mia"])),
    ];
    let authors = week_authors(&resolved);
    assert_eq!(
        authors,
        vec![String::from("ada"), String::from("mia"), String::from("zoe")]
    );
}

#[test]
fn no_resolved_proofs_yield_no_authors() {
    assert!(week_authors(&vec![None, None]).is_empty());
    assert!(week_authors(&Vec::new()).is_empty());
}

#[test]
fn string_comparison_is_lexicographic() {
    assert!(matches!(str_cmp("a", "b"), StrCmp::Lt));
    assert!(matches!(str_cmp("b", "a"), StrCmp::Gt));
    assert!(matches!(str_cmp("a", "a"), StrCmp::Eq));
    assert!(matches!(str_cmp("a", "ab"), StrCmp::Lt));
    assert!(matches!(str_cmp("ab", "a"), StrCmp::Gt));
    assert!(matches!(str_cmp("", "a"), StrCmp::Lt));
}

#[test]
fn loaded_proofs_resolve_end_to_end() {
    let files = vec![
        ProofFile {
            path: String::from("proofs/a.md"),
            text: String::from(
                "---\npid: 1\ntitle: A\nauthors: [b, a]\ndate: 01/10/2024\ntags: []\n---\none\n",
            ),
        },
        ProofFile {
            path: String::from("proofs/b.md"),
            text: String::from(
                "---\npid: 2\ntitle: B\nauthors: [a, c]\ndate: 02/10/2024\ntags: []\n---\ntwo\n",
            ),
        },
    ];
    let m = load_proofs(&files).unwrap();
    let r = resolve_week_proofs(&vec![2, 9, 1], &m);
    assert_eq!(r.len(), 3);
    assert_eq!(r[0].as_ref().unwrap().title, "B");
    assert!(r[1].is_none());
    assert_eq!(r[2].as_ref().unwrap().title, "A");
    let authors = week_authors(&r);
    assert_eq!(authors, vec![String::from("a"), String::from("b"), String::from("c")]);
}

#[test]
fn markup_rendering_transforms_the_body() {
    let p = proof_with_content("# Hi\n");
    assert_eq!(p.get_html(), "<h1>Hi</h1>\n");
    let rendered = p.as_html_proof();
    assert_eq!(rendered.content, "<h1>Hi</h1>\n");
    assert_eq!(rendered.pid, p.pid);
    assert_eq!(rendered.title, p.title);
    assert_eq!(rendered.authors, p.authors);
    assert_eq!(rendered.date, p.date);
}

fn proof_with_content(content: &str) -> Proof {
    Proof {
        pid: 7,
        title: String::from("t"),
        note: None,
        authors: vec![String::from("a")],
        date: Date { year: 2024, month: 10, day: 3 },
        tags: Vec::new(),
        content: String::from(content),
    }
}
