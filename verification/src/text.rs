use vstd::prelude::*;
use vstd::string::*;

verus! {

// ---------------------------------------------------------------------------
// Characters and digit runs
// ---------------------------------------------------------------------------

pub open spec fn is_digit(c: char) -> bool {
    '0' <= c && c <= '9'
}

pub open spec fn digit_val(c: char) -> int {
    c as int - '0' as int
}

/// Every character of `s` in `[i, j)` is a decimal digit.
pub open spec fn all_digits(s: Seq<char>, i: int, j: int) -> bool {
    forall|k: int| i <= k < j ==> is_digit(s[k])
}

/// The numeric value of the digit run `s[i..j]`, most significant digit first.
pub open spec fn digits_val(s: Seq<char>, i: int, j: int) -> int
    decreases j - i,
{
    if i >= j {
        0
    } else {
        digits_val(s, i, j - 1) * 10 + digit_val(s[j - 1])
    }
}

pub proof fn lemma_digits_val_nonneg(s: Seq<char>, i: int, j: int)
    requires
        all_digits(s, i, j),
    ensures
        digits_val(s, i, j) >= 0,
    decreases j - i,
{
    if i < j {
        lemma_digits_val_nonneg(s, i, j - 1);
    }
}

/// Extending a digit run to the right never decreases its value.
pub proof fn lemma_digits_val_mono(s: Seq<char>, i: int, k: int, j: int)
    requires
        i <= k <= j,
        all_digits(s, i, j),
    ensures
        digits_val(s, i, k) <= digits_val(s, i, j),
    decreases j - k,
{
    if k < j {
        lemma_digits_val_mono(s, i, k, j - 1);
        lemma_digits_val_nonneg(s, i, j - 1);
    }
}

/// A two-digit run is worth at most 99.
pub proof fn lemma_digits_val_two(s: Seq<char>, i: int)
    requires
        all_digits(s, i, i + 2),
    ensures
        digits_val(s, i, i + 2) == digit_val(s[i]) * 10 + digit_val(s[i + 1]),
        0 <= digits_val(s, i, i + 2) <= 99,
{
    assert(digits_val(s, i, i + 2) == digits_val(s, i, i + 1) * 10 + digit_val(s[i + 1]));
    assert(digits_val(s, i, i + 1) == digits_val(s, i, i) * 10 + digit_val(s[i]));
    assert(digits_val(s, i, i) == 0);
}

/// A four-digit run is worth at most 9999.
pub proof fn lemma_digits_val_four(s: Seq<char>, i: int)
    requires
        all_digits(s, i, i + 4),
    ensures
        0 <= digits_val(s, i, i + 4) <= 9999,
        digits_val(s, i, i + 4) == ((digit_val(s[i]) * 10 + digit_val(s[i + 1])) * 10 + digit_val(
            s[i + 2],
        )) * 10 + digit_val(s[i + 3]),
{
    lemma_digits_val_two(s, i);
    assert(digits_val(s, i, i + 4) == digits_val(s, i, i + 3) * 10 + digit_val(s[i + 3]));
    assert(digits_val(s, i, i + 3) == digits_val(s, i, i + 2) * 10 + digit_val(s[i + 2]));
}

/// `s` as a whole is a decimal numeral that fits in a `u64`.
pub open spec fn spec_is_u64(s: Seq<char>) -> bool {
    &&& s.len() >= 1
    &&& all_digits(s, 0, s.len() as int)
    &&& digits_val(s, 0, s.len() as int) <= u64::MAX
}

/// Parses `s` as a decimal `u64`; `None` when `s` is empty, holds a
/// non-digit, or does not fit.
pub fn parse_u64_str(s: &str) -> (r: Option<u64>)
    ensures
        r is Some <==> spec_is_u64(s@),
        r matches Some(v) ==> v == digits_val(s@, 0, s@.len() as int),
{
    let n = s.unicode_len();
    if n == 0 {
        return None;
    }
    let mut acc: u64 = 0;
    let mut i: usize = 0;
    while i < n
        invariant
            0 <= i <= n,
            n == s@.len(),
            all_digits(s@, 0, i as int),
            acc == digits_val(s@, 0, i as int),
        decreases n - i,
    {
        let c = s.get_char(i);
        if c < '0' || c > '9' {
            assert(!all_digits(s@, 0, n as int));
            return None;
        }
        let d: u64 = (c as u32 - '0' as u32) as u64;
        assert(d == digit_val(s@[i as int]) && d <= 9);
        if acc > (u64::MAX - d) / 10 {
            proof {
                let m = (u64::MAX - d) as int;
                assert(m == (m / 10) * 10 + m % 10);
                assert(acc * 10 >= (m / 10 + 1) * 10);
                assert(digits_val(s@, 0, i + 1) == acc * 10 + d);
                assert(digits_val(s@, 0, i + 1) > u64::MAX);
                if all_digits(s@, 0, n as int) {
                    lemma_digits_val_mono(s@, 0, i + 1, n as int);
                    assert(!spec_is_u64(s@));
                }
            }
            return None;
        }
        proof {
            let m = (u64::MAX - d) as int;
            assert(m == (m / 10) * 10 + m % 10);
            assert(acc * 10 <= (m / 10) * 10);
        }
        acc = acc * 10 + d;
        i += 1;
    }
    Some(acc)
}

// ---------------------------------------------------------------------------
// Bounded character search
// ---------------------------------------------------------------------------

/// The first index of `c` in `s[i..j]`, or `j` when there is none.
pub open spec fn spec_find_in(s: Seq<char>, c: char, i: int, j: int) -> int
    decreases j - i,
{
    if i >= j {
        j
    } else if s[i] == c {
        i
    } else {
        spec_find_in(s, c, i + 1, j)
    }
}

pub proof fn lemma_find_in(s: Seq<char>, c: char, i: int, j: int)
    requires
        i <= j,
    ensures
        i <= spec_find_in(s, c, i, j) <= j,
        spec_find_in(s, c, i, j) < j ==> s[spec_find_in(s, c, i, j)] == c,
        forall|k: int| i <= k < spec_find_in(s, c, i, j) ==> s[k] != c,
    decreases j - i,
{
    if i < j && s[i] != c {
        lemma_find_in(s, c, i + 1, j);
    }
}

pub fn find_in(v: &Vec<char>, c: char, from: usize, to: usize) -> (r: usize)
    requires
        from <= to <= v@.len(),
    ensures
        r == spec_find_in(v@, c, from as int, to as int),
        from <= r <= to,
    {
    let mut i = from;
    while i < to && v[i] != c
        invariant
            from <= i <= to <= v@.len(),
            spec_find_in(v@, c, from as int, to as int) == spec_find_in(v@, c, i as int, to as int),
        decreases to - i,
    {
        i += 1;
    }
    proof {
        lemma_find_in(v@, c, from as int, to as int);
    }
    i
}

/// The characters of `s`, for indexed scanning.
pub fn to_chars(s: &str) -> (v: Vec<char>)
    ensures
        v@ == s@,
{
    let n = s.unicode_len();
    let mut v: Vec<char> = Vec::new();
    let mut i: usize = 0;
    while i < n
        invariant
            0 <= i <= n,
            n == s@.len(),
            v@ == s@.take(i as int),
        decreases n - i,
    {
        let c = s.get_char(i);
        v.push(c);
        assert(v@ =~= s@.take(i + 1));
        i += 1;
    }
    assert(v@ =~= s@);
    v
}

/// `a` and `b` hold the same characters.
pub fn str_eq(a: &str, b: &str) -> (r: bool)
    ensures
        r == (a@ == b@),
{
    let n = a.unicode_len();
    let m = b.unicode_len();
    if n != m {
        return false;
    }
    let mut i: usize = 0;
    while i < n
        invariant
            0 <= i <= n,
            n == a@.len() == b@.len(),
            forall|k: int| 0 <= k < i ==> a@[k] == b@[k],
        decreases n - i,
    {
        if a.get_char(i) != b.get_char(i) {
            return false;
        }
        i += 1;
    }
    proof {
        assert(a@ =~= b@);
    }
    true
}

// ---------------------------------------------------------------------------
// Trimming spaces
// ---------------------------------------------------------------------------

pub open spec fn trim_front(s: Seq<char>) -> Seq<char>
    decreases s.len(),
{
    if s.len() > 0 && s[0] == ' ' {
        trim_front(s.drop_first())
    } else {
        s
    }
}

pub open spec fn trim_back(s: Seq<char>) -> Seq<char>
    decreases s.len(),
{
    if s.len() > 0 && s[s.len() - 1] == ' ' {
        trim_back(s.drop_last())
    } else {
        s
    }
}

/// `s` without leading and trailing spaces.
pub open spec fn trim(s: Seq<char>) -> Seq<char> {
    trim_back(trim_front(s))
}

proof fn lemma_trim_front_skip(s: Seq<char>, a: int)
    requires
        0 <= a <= s.len(),
        forall|k: int| 0 <= k < a ==> s[k] == ' ',
        a < s.len() ==> s[a] != ' ',
    ensures
        trim_front(s) == s.skip(a),
    decreases a,
{
    if a == 0 {
        assert(s.skip(0) =~= s);
    } else {
        assert(s[0] == ' ');
        lemma_trim_front_skip(s.drop_first(), a - 1);
        assert(s.drop_first().skip(a - 1) =~= s.skip(a));
    }
}

proof fn lemma_trim_back_take(s: Seq<char>, b: int)
    requires
        0 <= b <= s.len(),
        forall|k: int| b <= k < s.len() ==> s[k] == ' ',
        b > 0 ==> s[b - 1] != ' ',
    ensures
        trim_back(s) == s.take(b),
    decreases s.len(),
{
    if b == s.len() {
        if s.len() > 0 && s[s.len() - 1] == ' ' {
            assert(false);
        }
        assert(s.take(b) =~= s);
    } else {
        assert(s[s.len() - 1] == ' ');
        lemma_trim_back_take(s.drop_last(), b);
        assert(s.drop_last().take(b) =~= s.take(b));
    }
}

/// The trimmed run of `v[i..j]` is exactly `v[r.0..r.1]`.
pub fn trim_bounds(v: &Vec<char>, i: usize, j: usize) -> (r: (usize, usize))
    requires
        i <= j <= v@.len(),
    ensures
        i <= r.0 <= r.1 <= j,
        trim(v@.subrange(i as int, j as int)) == v@.subrange(r.0 as int, r.1 as int),
{
    let mut a = i;
    while a < j && v[a] == ' '
        invariant
            i <= a <= j <= v@.len(),
            forall|k: int| i <= k < a ==> v@[k] == ' ',
        decreases j - a,
    {
        a += 1;
    }
    let mut b = j;
    while b > a && v[b - 1] == ' '
        invariant
            a <= b <= j <= v@.len(),
            forall|k: int| b <= k < j ==> v@[k] == ' ',
        decreases b,
    {
        b -= 1;
    }
    proof {
        let s = v@.subrange(i as int, j as int);
        let af = a - i;
        lemma_trim_front_skip(s, af);
        let t = s.skip(af);
        assert(t =~= v@.subrange(a as int, j as int));
        lemma_trim_back_take(t, b - a);
        assert(t.take(b - a) =~= v@.subrange(a as int, b as int));
    }
    (a, b)
}

// ---------------------------------------------------------------------------
// Key/value lines
// ---------------------------------------------------------------------------

/// One `key: value` pair of a structured block.
pub ghost struct Kv {
    pub key: Seq<char>,
    pub value: Seq<char>,
}

/// One `key: value` pair, as parsed.
#[derive(Debug)]
pub struct KvPair {
    pub key: String,
    pub value: String,
}

impl View for KvPair {
    type V = Kv;

    open spec fn view(&self) -> Kv {
        Kv { key: self.key@, value: self.value@ }
    }
}

pub open spec fn kv_views(s: Seq<KvPair>) -> Seq<Kv> {
    s.map_values(|p: KvPair| p@)
}

pub open spec fn views_of(s: Seq<String>) -> Seq<Seq<char>> {
    s.map_values(|t: String| t@)
}

/// The line `s[i..j]` read as `key: value`: the key before the first colon
/// (non-empty), one space after the colon, the value verbatim after that.
/// A line `key:` with nothing after the colon has an empty value.
pub open spec fn spec_line_kv(s: Seq<char>, i: int, j: int) -> Option<Kv> {
    let k = spec_find_in(s, ':', i, j);
    if k == j || k == i {
        None
    } else if k == j - 1 {
        Some(Kv { key: s.subrange(i, k), value: Seq::empty() })
    } else if s[k + 1] == ' ' {
        Some(Kv { key: s.subrange(i, k), value: s.subrange(k + 2, j) })
    } else {
        None
    }
}

/// The `key: value` pairs of the lines of `s[i..]`, in order; empty lines
/// are skipped; `None` when some non-empty line is not a `key: value` line.
pub open spec fn spec_kvs(s: Seq<char>, i: int) -> Option<Seq<Kv>>
    decreases s.len() - i,
    when 0 <= i
    via spec_kvs_dec
{
    if i >= s.len() {
        Some(Seq::empty())
    } else {
        let j = spec_find_in(s, '\n', i, s.len() as int);
        let tail = if j >= s.len() {
            Some(Seq::<Kv>::empty())
        } else {
            spec_kvs(s, j + 1)
        };
        if j == i {
            tail
        } else {
            match spec_line_kv(s, i, j) {
                None => None,
                Some(kv) => match tail {
                    None => None,
                    Some(t) => Some(seq![kv] + t),
                },
            }
        }
    }
}

#[via_fn]
proof fn spec_kvs_dec(s: Seq<char>, i: int) {
    if i < s.len() {
        lemma_find_in(s, '\n', i, s.len() as int);
    }
}

/// Parses a whole structured block into its `key: value` pairs.
pub fn parse_kv_block(ms: &str) -> (r: Option<Vec<KvPair>>)
    ensures
        match r {
            Some(kvs) => spec_kvs(ms@, 0) == Some(kv_views(kvs@)),
            None => spec_kvs(ms@, 0) is None,
        },
{
    let v = to_chars(ms);
    let n = v.len();
    let mut out: Vec<KvPair> = Vec::new();
    let mut i: usize = 0;
    while i < n
        invariant
            0 <= i <= n,
            n == ms@.len(),
            v@ == ms@,
            spec_kvs(v@, 0) == (match spec_kvs(v@, i as int) {
                None => None::<Seq<Kv>>,
                Some(t) => Some(kv_views(out@) + t),
            }),
        decreases n - i,
    {
        let j = find_in(&v, '\n', i, n);
        proof {
            lemma_find_in(v@, '\n', i as int, n as int);
        }
        if j > i {
            let ghost line_kv = spec_line_kv(v@, i as int, j as int);
            let k = find_in(&v, ':', i, j);
            if k == j || k == i {
                assert(line_kv is None);
                return None;
            }
            let key = ms.substring_char(i, k).to_owned();
            let value: String;
            if k + 1 == j {
                value = String::new();
                assert(value@ =~= Seq::<char>::empty());
            } else if v[k + 1] == ' ' {
                value = ms.substring_char(k + 2, j).to_owned();
            } else {
                assert(line_kv is None);
                return None;
            }
            let pair = KvPair { key, value };
            assert(line_kv == Some(pair@));
            let ghost old_out = out@;
            out.push(pair);
            proof {
                assert(kv_views(out@) =~= kv_views(old_out).push(pair@));
                let t_old = spec_kvs(v@, i as int)->Some_0;
                if j < n {
                    let t_new = spec_kvs(v@, j + 1);
                    assert(spec_kvs(v@, i as int) == (match t_new {
                        None => None::<Seq<Kv>>,
                        Some(t) => Some(seq![pair@] + t),
                    }));
                    if t_new is Some {
                        assert(kv_views(old_out) + (seq![pair@] + t_new->Some_0) =~= kv_views(
                            out@,
                        ) + t_new->Some_0);
                    }
                } else {
                    assert(spec_kvs(v@, i as int) == Some(seq![pair@] + Seq::<Kv>::empty()));
                    assert(kv_views(old_out) + (seq![pair@] + Seq::<Kv>::empty()) =~= kv_views(
                        out@,
                    ) + Seq::<Kv>::empty());
                }
            }
        }
        if j < n {
            i = j + 1;
            assert(i <= n);
        } else {
            i = n;
            assert(spec_kvs(v@, n as int) == Some(Seq::<Kv>::empty()));
        }
    }
    proof {
        assert(spec_kvs(v@, n as int) == Some(Seq::<Kv>::empty()));
        assert(kv_views(out@) + Seq::<Kv>::empty() =~= kv_views(out@));
    }
    Some(out)
}

// ---------------------------------------------------------------------------
// Lookups among parsed pairs
// ---------------------------------------------------------------------------

/// How many pairs of `kvs[i..]` carry `key`.
pub open spec fn count_key(kvs: Seq<Kv>, key: Seq<char>, i: int) -> int
    decreases kvs.len() - i,
{
    if i >= kvs.len() {
        0
    } else {
        (if kvs[i].key == key {
            1int
        } else {
            0int
        }) + count_key(kvs, key, i + 1)
    }
}

/// The value of the first pair of `kvs[i..]` carrying `key` (empty when none).
pub open spec fn first_value(kvs: Seq<Kv>, key: Seq<char>, i: int) -> Seq<char>
    decreases kvs.len() - i,
{
    if i >= kvs.len() {
        Seq::empty()
    } else if kvs[i].key == key {
        kvs[i].value
    } else {
        first_value(kvs, key, i + 1)
    }
}

pub fn count_key_exec(kvs: &Vec<KvPair>, key: &str) -> (r: usize)
    requires
        kvs@.len() <= usize::MAX,
    ensures
        r == count_key(kv_views(kvs@), key@, 0),
{
    let mut cnt: usize = 0;
    let mut i: usize = 0;
    while i < kvs.len()
        invariant
            0 <= i <= kvs@.len(),
            cnt <= i,
            count_key(kv_views(kvs@), key@, 0) == cnt + count_key(kv_views(kvs@), key@, i as int),
        decreases kvs@.len() - i,
    {
        if str_eq(kvs[i].key.as_str(), key) {
            cnt += 1;
        }
        i += 1;
    }
    cnt
}

/// The value of the first pair carrying `key`, when one is there.
pub fn get_value(kvs: &Vec<KvPair>, key: &str) -> (r: Option<String>)
    ensures
        match r {
            Some(v) => count_key(kv_views(kvs@), key@, 0) >= 1 && v@ == first_value(
                kv_views(kvs@),
                key@,
                0,
            ),
            None => count_key(kv_views(kvs@), key@, 0) == 0,
        },
{
    let mut i: usize = 0;
    while i < kvs.len()
        invariant
            0 <= i <= kvs@.len(),
            count_key(kv_views(kvs@), key@, 0) == count_key(kv_views(kvs@), key@, i as int),
            first_value(kv_views(kvs@), key@, 0) == first_value(kv_views(kvs@), key@, i as int),
            forall|k: int| 0 <= k < i ==> kv_views(kvs@)[k].key != key@,
        decreases kvs@.len() - i,
    {
        if str_eq(kvs[i].key.as_str(), key) {
            proof {
                lemma_count_key_nonneg(kv_views(kvs@), key@, i + 1);
            }
            return Some(kvs[i].value.clone());
        }
        i += 1;
    }
    None
}

pub proof fn lemma_count_key_nonneg(kvs: Seq<Kv>, key: Seq<char>, i: int)
    ensures
        count_key(kvs, key, i) >= 0,
    decreases kvs.len() - i,
{
    if i < kvs.len() {
        lemma_count_key_nonneg(kvs, key, i + 1);
    }
}

// ---------------------------------------------------------------------------
// Bracketed lists
// ---------------------------------------------------------------------------

/// The elements of `s[i..j]` split at every comma, each trimmed of spaces.
pub open spec fn spec_elems(s: Seq<char>, i: int, j: int) -> Seq<Seq<char>>
    decreases j - i,
    when i <= j
    via spec_elems_dec
{
    let k = spec_find_in(s, ',', i, j);
    if k >= j {
        seq![trim(s.subrange(i, j))]
    } else {
        seq![trim(s.subrange(i, k))] + spec_elems(s, k + 1, j)
    }
}

#[via_fn]
proof fn spec_elems_dec(s: Seq<char>, i: int, j: int) {
    lemma_find_in(s, ',', i, j);
}

/// `s` read as a bracketed list: `[]` is empty, otherwise the inner text
/// split at commas with each element trimmed of spaces.
pub open spec fn spec_parse_list(s: Seq<char>) -> Option<Seq<Seq<char>>> {
    if s.len() >= 2 && s[0] == '[' && s[s.len() - 1] == ']' {
        if s.len() == 2 {
            Some(Seq::empty())
        } else {
            Some(spec_elems(s, 1, s.len() - 1))
        }
    } else {
        None
    }
}

/// Parses a bracketed list of free-text elements.
pub fn parse_str_list(value: &str) -> (r: Option<Vec<String>>)
    ensures
        match r {
            Some(items) => spec_parse_list(value@) == Some(views_of(items@)),
            None => spec_parse_list(value@) is None,
        },
{
    let v = to_chars(value);
    let n = v.len();
    if !(n >= 2 && v[0] == '[' && v[n - 1] == ']') {
        return None;
    }
    let mut items: Vec<String> = Vec::new();
    if n == 2 {
        assert(views_of(items@) =~= Seq::<Seq<char>>::empty());
        return Some(items);
    }
    let j = n - 1;
    let mut i: usize = 1;
    while i < n
        invariant
            1 <= i <= n,
            j == n - 1,
            3 <= n == value@.len(),
            v@ == value@,
            spec_elems(v@, 1, j as int) == views_of(items@) + (if i as int <= j {
                spec_elems(v@, i as int, j as int)
            } else {
                Seq::<Seq<char>>::empty()
            }),
        decreases n - i,
    {
        let k = find_in(&v, ',', i, j);
        proof {
            lemma_find_in(v@, ',', i as int, j as int);
        }
        let (a, b) = trim_bounds(&v, i, k);
        let item = value.substring_char(a, b).to_owned();
        assert(item@ == trim(v@.subrange(i as int, k as int)));
        let ghost old_items = items@;
        items.push(item);
        proof {
            assert(views_of(items@) =~= views_of(old_items).push(item@));
        }
        if k == j {
            proof {
                assert(spec_elems(v@, i as int, j as int) =~= seq![item@]);
                assert(views_of(old_items) + seq![item@] =~= views_of(items@));
                assert(spec_elems(v@, 1, j as int) == views_of(items@));
            }
            i = n;
            proof {
                assert(spec_elems(v@, 1, j as int) == views_of(items@) + Seq::<Seq<char>>::empty());
            }
        } else {
            proof {
                let t = spec_elems(v@, k + 1, j as int);
                assert(spec_elems(v@, i as int, j as int) == seq![item@] + t);
                assert(views_of(old_items) + (seq![item@] + t) =~= views_of(items@) + t);
            }
            i = k + 1;
        }
    }
    proof {
        assert(spec_elems(v@, 1, j as int) == views_of(items@) + Seq::<Seq<char>>::empty());
        assert(views_of(items@) + Seq::<Seq<char>>::empty() =~= views_of(items@));
    }
    Some(items)
}

/// A copy of `v` holding the same character sequences.
pub fn clone_strings(v: &Vec<String>) -> (r: Vec<String>)
    ensures
        views_of(r@) == views_of(v@),
{
    let mut r: Vec<String> = Vec::new();
    let mut i: usize = 0;
    while i < v.len()
        invariant
            0 <= i <= v@.len(),
            r@.len() == i,
            forall|k: int| 0 <= k < i ==> r@[k]@ == v@[k]@,
        decreases v@.len() - i,
    {
        let c = v[i].clone();
        assert(c@ == v@[i as int]@);
        r.push(c);
        i += 1;
    }
    proof {
        assert forall|k: int| 0 <= k < views_of(r@).len() implies views_of(r@)[k] == views_of(
            v@,
        )[k] by {
            assert(views_of(r@)[k] == r@[k]@);
            assert(views_of(v@)[k] == v@[k]@);
        }
        assert(views_of(r@) =~= views_of(v@));
    }
    r
}

/// The elements of `es`, each read as a decimal `u64`.
pub open spec fn u64s_of(es: Seq<Seq<char>>) -> Seq<u64> {
    es.map_values(|e: Seq<char>| digits_val(e, 0, e.len() as int) as u64)
}

pub open spec fn all_u64(es: Seq<Seq<char>>) -> bool {
    forall|i: int| 0 <= i < es.len() ==> spec_is_u64(es[i])
}

/// `s` read as a bracketed list of decimal `u64` numbers.
pub open spec fn spec_parse_u64_list(s: Seq<char>) -> Option<Seq<u64>> {
    match spec_parse_list(s) {
        None => None,
        Some(es) => if all_u64(es) {
            Some(u64s_of(es))
        } else {
            None
        },
    }
}

/// Parses a bracketed list of decimal numbers.
pub fn parse_u64_list(value: &str) -> (r: Option<Vec<u64>>)
    ensures
        match r {
            Some(nums) => spec_parse_u64_list(value@) == Some(nums@),
            None => spec_parse_u64_list(value@) is None,
        },
{
    let items = match parse_str_list(value) {
        None => {
            return None;
        },
        Some(items) => items,
    };
    let ghost es = views_of(items@);
    let mut nums: Vec<u64> = Vec::new();
    let mut i: usize = 0;
    while i < items.len()
        invariant
            0 <= i <= items@.len(),
            es == views_of(items@),
            spec_parse_list(value@) == Some(es),
            nums@ =~= u64s_of(es.take(i as int)),
            forall|k: int| 0 <= k < i ==> spec_is_u64(es[k]),
        decreases items@.len() - i,
    {
        match parse_u64_str(items[i].as_str()) {
            None => {
                assert(!spec_is_u64(es[i as int]));
                return None;
            },
            Some(x) => {
                nums.push(x);
                assert(nums@ =~= u64s_of(es.take(i + 1))) by {
                    assert(es.take(i + 1).drop_last() =~= es.take(i as int));
                }
                i += 1;
            },
        }
    }
    proof {
        assert(es.take(items@.len() as int) =~= es);
        assert(nums@ =~= u64s_of(es));
    }
    Some(nums)
}

} // verus!
