use kholles::date::Date;
use kholles::sort::{sort_proofs, sort_weeks};
use kholles::types::{Proof, Week};

fn p(pid: u64, date: Date) -> Proof {
    Proof {
        pid,
        title: format!("proof {}", pid),
        note: None,
        authors: Vec::new(),
        date,
        tags: Vec::new(),
        content: String::new(),
    }
}

fn d(day: u8, month: u8, year: u32) -> Date {
    Date { year, month, day }
}

#[test]
fn proofs_sort_newest_first_with_larger_id_breaking_ties() {
    let mut v = vec![
        p(1, d(1, 10, 2024)),
        p(4, d(3, 10, 2024)),
        p(2, d(3, 10, 2024)),
        p(3, d(28, 9, 2024)),
        p(5, d(1, 1, 2025)),
    ];
    sort_proofs(&mut v);
    let ids: Vec<u64> = v.iter().map(|x| x.pid).collect();
    assert_eq!(ids, vec![5, 4, 2, 1, 3]);
}

#[test]
fn proof_sort_keeps_every_element() {
    let mut v = vec![p(2, d(1, 1, 2024)), p(2, d(1, 1, 2024)), p(1, d(2, 1, 2024))];
    sort_proofs(&mut v);
    assert_eq!(v.len(), 3);
    let ids: Vec<u64> = v.iter().map(|x| x.pid).collect();
    assert_eq!(ids, vec![1, 2, 2]);
}

fn w(number: u8) -> Week {
    Week {
        number,
        date: Date { year: 2024, month: 10, day: 7 },
        description: String::new(),
        proofs: Vec::new(),
    }
}

#[test]
fn weeks_sort_by_ascending_number() {
    let mut v = vec![w(3), w(1), w(2)];
    sort_weeks(&mut v);
    let nums: Vec<u8> = v.iter().map(|x| x.number).collect();
    assert_eq!(nums, vec![1, 2, 3]);
    let mut empty: Vec<Week> = Vec::new();
    sort_weeks(&mut empty);
    assert!(empty.is_empty());
}
