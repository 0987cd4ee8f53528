use crate::date::{spec_parse_date, parse_date_str, Date};
use crate::error::ParseError;
use crate::markdown::{html_of, md_to_html};
use crate::text::{
    all_digits, clone_strings, count_key, count_key_exec, digits_val, first_value, get_value,
    parse_kv_block, parse_str_list, parse_u64_list, parse_u64_str, spec_is_u64, spec_kvs,
    spec_parse_list, spec_parse_u64_list, to_chars, views_of, Kv,
};
use vstd::prelude::*;
use vstd::string::*;

verus! {

/// A single authored document: metadata from its front matter, plus the raw
/// body after the front-matter block.
#[derive(Debug, PartialEq, Eq, Hash)]
pub struct Proof {
    pub pid: u64,
    pub title: String,
    pub note: Option<String>,
    pub authors: Vec<String>,
    pub date: Date,
    pub tags: Vec<String>,
    pub content: String,
}

/// The mathematical content of a [`Proof`].
pub ghost struct ProofView {
    pub pid: u64,
    pub title: Seq<char>,
    pub note: Option<Seq<char>>,
    pub authors: Seq<Seq<char>>,
    pub date: Date,
    pub tags: Seq<Seq<char>>,
    pub content: Seq<char>,
}

impl View for Proof {
    type V = ProofView;

    open spec fn view(&self) -> ProofView {
        ProofView {
            pid: self.pid,
            title: self.title@,
            note: match self.note {
                Some(ref s) => Some(s@),
                None => None,
            },
            authors: views_of(self.authors@),
            date: self.date,
            tags: views_of(self.tags@),
            content: self.content@,
        }
    }
}

pub trait ProofTrait {
    type ProofIdType;
}

impl ProofTrait for Proof {
    type ProofIdType = u64;
}

pub trait WeekTrait {
    type WeekNumberType;
}

impl WeekTrait for Week {
    type WeekNumberType = u8;
}

/// A grouping of proofs assigned to one calendar week. `number` is derived
/// from the descriptor's filename, never from its body.
#[derive(Debug, PartialEq, Eq, Hash)]
pub struct Week {
    pub number: u8,
    pub date: Date,
    pub description: String,
    pub proofs: Vec<u64>,
}

/// The mathematical content of a [`Week`].
pub ghost struct WeekView {
    pub number: u8,
    pub date: Date,
    pub description: Seq<char>,
    pub proofs: Seq<u64>,
}

impl View for Week {
    type V = WeekView;

    open spec fn view(&self) -> WeekView {
        WeekView {
            number: self.number,
            date: self.date,
            description: self.description@,
            proofs: self.proofs@,
        }
    }
}

fn clone_opt_string(o: &Option<String>) -> (r: Option<String>)
    ensures
        r is Some <==> o is Some,
        o matches Some(s) ==> (r matches Some(x) && x@ == s@),
{
    match o {
        Some(s) => Some(s.clone()),
        None => None,
    }
}

fn clone_u64s(v: &Vec<u64>) -> (r: Vec<u64>)
    ensures
        r@ == v@,
{
    let mut r: Vec<u64> = Vec::new();
    let mut i: usize = 0;
    while i < v.len()
        invariant
            0 <= i <= v@.len(),
            r@ =~= v@.take(i as int),
        decreases v@.len() - i,
    {
        r.push(v[i]);
        assert(r@ =~= v@.take(i + 1));
        i += 1;
    }
    assert(r@ =~= v@);
    r
}

impl Clone for Proof {
    fn clone(&self) -> (r: Self)
        ensures
            r@ == self@,
    {
        Proof {
            pid: self.pid,
            title: self.title.clone(),
            note: clone_opt_string(&self.note),
            authors: clone_strings(&self.authors),
            date: self.date,
            tags: clone_strings(&self.tags),
            content: self.content.clone(),
        }
    }
}

impl Clone for Week {
    fn clone(&self) -> (r: Self)
        ensures
            r@ == self@,
    {
        Week {
            number: self.number,
            date: self.date,
            description: self.description.clone(),
            proofs: clone_u64s(&self.proofs),
        }
    }
}

impl Proof {
    /// The body rendered to display markup by the outside conversion.
    pub fn get_html(&self) -> (r: String)
        ensures
            r@ == html_of(self@.content),
    {
        md_to_html(self.content.as_str())
    }

    /// The same proof, with `content` replaced by its display markup.
    pub fn as_html_proof(&self) -> (r: Proof)
        ensures
            r@ == (ProofView { content: html_of(self@.content), ..self@ }),
    {
        Proof {
            pid: self.pid,
            title: self.title.clone(),
            note: clone_opt_string(&self.note),
            authors: clone_strings(&self.authors),
            date: self.date,
            tags: clone_strings(&self.tags),
            content: md_to_html(self.content.as_str()),
        }
    }
}

// ---------------------------------------------------------------------------
// Front matter
// ---------------------------------------------------------------------------

/// A closing front-matter fence stands at `i`: a newline, then a `---` line.
pub open spec fn fm_close_at(s: Seq<char>, i: int) -> bool {
    &&& i + 5 <= s.len()
    &&& s[i] == '\n'
    &&& s[i + 1] == '-'
    &&& s[i + 2] == '-'
    &&& s[i + 3] == '-'
    &&& s[i + 4] == '\n'
}

/// The first closing fence at or after `i`, or the text's length when none.
pub open spec fn spec_find_close(s: Seq<char>, i: int) -> int
    decreases s.len() - i,
    when 0 <= i
{
    if i + 5 > s.len() {
        s.len() as int
    } else if fm_close_at(s, i) {
        i
    } else {
        spec_find_close(s, i + 1)
    }
}

pub proof fn lemma_find_close(s: Seq<char>, i: int)
    requires
        0 <= i <= s.len(),
    ensures
        i <= spec_find_close(s, i) <= s.len(),
        spec_find_close(s, i) < s.len() ==> fm_close_at(s, spec_find_close(s, i)),
        forall|k: int| i <= k < spec_find_close(s, i) ==> !fm_close_at(s, k),
    decreases s.len() - i,
{
    if i + 5 <= s.len() && !fm_close_at(s, i) {
        lemma_find_close(s, i + 1);
    }
}

fn find_close(v: &Vec<char>, from: usize) -> (r: usize)
    requires
        from <= v@.len(),
    ensures
        r == spec_find_close(v@, from as int),
{
    let n = v.len();
    let mut i = from;
    while n - i >= 5 && !(v[i] == '\n' && v[i + 1] == '-' && v[i + 2] == '-' && v[i + 3] == '-'
        && v[i + 4] == '\n')
        invariant
            from <= i <= n == v@.len(),
            spec_find_close(v@, from as int) == spec_find_close(v@, i as int),
        decreases n - i,
    {
        i += 1;
    }
    if n - i >= 5 {
        i
    } else {
        n
    }
}

/// The front-matter block of `s` and the body after it. The text must open
/// with a `---` line; the block runs to the first closing `---` line; the
/// body is everything after that line, verbatim.
pub open spec fn spec_front_matter(s: Seq<char>) -> Option<(Seq<char>, Seq<char>)> {
    if s.len() >= 4 && s[0] == '-' && s[1] == '-' && s[2] == '-' && s[3] == '\n' {
        let j = spec_find_close(s, 4);
        if j < s.len() {
            Some((s.subrange(4, j), s.subrange(j + 5, s.len() as int)))
        } else {
            None
        }
    } else {
        None
    }
}

// ---------------------------------------------------------------------------
// Proof parsing
// ---------------------------------------------------------------------------

/// The proof schema over parsed `key: value` pairs: `pid`, `title`,
/// `authors`, `date` and `tags` exactly once, `note` at most once, no
/// duplicate among them; `pid` a decimal `u64`; `title` non-empty; `date`
/// in the fixed format; `authors` and `tags` bracketed lists.
pub open spec fn spec_proof_fields(kvs: Seq<Kv>, content: Seq<char>) -> Result<
    ProofView,
    ParseError,
> {
    if !(count_key(kvs, "pid"@, 0) == 1 && count_key(kvs, "title"@, 0) == 1 && count_key(
        kvs,
        "authors"@,
        0,
    ) == 1 && count_key(kvs, "date"@, 0) == 1 && count_key(kvs, "tags"@, 0) == 1 && count_key(
        kvs,
        "note"@,
        0,
    ) <= 1) {
        Err(ParseError::SchemaViolation)
    } else if !spec_is_u64(first_value(kvs, "pid"@, 0)) {
        Err(ParseError::SchemaViolation)
    } else if first_value(kvs, "title"@, 0).len() == 0 {
        Err(ParseError::SchemaViolation)
    } else {
        match spec_parse_date(first_value(kvs, "date"@, 0)) {
            None => Err(ParseError::DateFormatMismatch),
            Some(date) => match spec_parse_list(first_value(kvs, "authors"@, 0)) {
                None => Err(ParseError::SchemaViolation),
                Some(authors) => match spec_parse_list(first_value(kvs, "tags"@, 0)) {
                    None => Err(ParseError::SchemaViolation),
                    Some(tags) => Ok(
                        ProofView {
                            pid: digits_val(
                                first_value(kvs, "pid"@, 0),
                                0,
                                first_value(kvs, "pid"@, 0).len() as int,
                            ) as u64,
                            title: first_value(kvs, "title"@, 0),
                            note: if count_key(kvs, "note"@, 0) == 1 {
                                Some(first_value(kvs, "note"@, 0))
                            } else {
                                None
                            },
                            authors,
                            date,
                            tags,
                            content,
                        },
                    ),
                },
            },
        }
    }
}

/// What `parse_proof` returns on a given text.
pub open spec fn spec_parse_proof(s: Seq<char>) -> Result<ProofView, ParseError> {
    match spec_front_matter(s) {
        None => Err(ParseError::SchemaViolation),
        Some((matter, content)) => match spec_kvs(matter, 0) {
            None => Err(ParseError::SchemaViolation),
            Some(kvs) => spec_proof_fields(kvs, content),
        },
    }
}

/// Splits `text` into front matter and body, validates the front matter
/// against the proof schema, and binds the body as `content`, verbatim.
pub fn parse_proof(text: &str) -> (r: Result<Proof, ParseError>)
    ensures
        match r {
            Ok(p) => spec_parse_proof(text@) == Ok::<ProofView, ParseError>(p@),
            Err(e) => spec_parse_proof(text@) == Err::<ProofView, ParseError>(e),
        },
{
    let v = to_chars(text);
    let n = v.len();
    if !(n >= 4 && v[0] == '-' && v[1] == '-' && v[2] == '-' && v[3] == '\n') {
        return Err(ParseError::SchemaViolation);
    }
    let j = find_close(&v, 4);
    proof {
        lemma_find_close(v@, 4);
    }
    if j == n {
        return Err(ParseError::SchemaViolation);
    }
    let matter = text.substring_char(4, j);
    let content = text.substring_char(j + 5, n).to_owned();
    let kvs = match parse_kv_block(matter) {
        None => {
            return Err(ParseError::SchemaViolation);
        },
        Some(kvs) => kvs,
    };
    let c_pid = count_key_exec(&kvs, "pid");
    let c_title = count_key_exec(&kvs, "title");
    let c_authors = count_key_exec(&kvs, "authors");
    let c_date = count_key_exec(&kvs, "date");
    let c_tags = count_key_exec(&kvs, "tags");
    let c_note = count_key_exec(&kvs, "note");
    if !(c_pid == 1 && c_title == 1 && c_authors == 1 && c_date == 1 && c_tags == 1 && c_note
        <= 1) {
        return Err(ParseError::SchemaViolation);
    }
    let pid_s = match get_value(&kvs, "pid") {
        Some(s) => s,
        None => {
            return Err(ParseError::SchemaViolation);
        },
    };
    let pid = match parse_u64_str(pid_s.as_str()) {
        None => {
            return Err(ParseError::SchemaViolation);
        },
        Some(x) => x,
    };
    let title = match get_value(&kvs, "title") {
        Some(s) => s,
        None => {
            return Err(ParseError::SchemaViolation);
        },
    };
    if title.as_str().is_empty() {
        return Err(ParseError::SchemaViolation);
    }
    let date_s = match get_value(&kvs, "date") {
        Some(s) => s,
        None => {
            return Err(ParseError::SchemaViolation);
        },
    };
    let date = match parse_date_str(date_s.as_str()) {
        None => {
            return Err(ParseError::DateFormatMismatch);
        },
        Some(d) => d,
    };
    let authors_s = match get_value(&kvs, "authors") {
        Some(s) => s,
        None => {
            return Err(ParseError::SchemaViolation);
        },
    };
    let authors = match parse_str_list(authors_s.as_str()) {
        None => {
            return Err(ParseError::SchemaViolation);
        },
        Some(a) => a,
    };
    let tags_s = match get_value(&kvs, "tags") {
        Some(s) => s,
        None => {
            return Err(ParseError::SchemaViolation);
        },
    };
    let tags = match parse_str_list(tags_s.as_str()) {
        None => {
            return Err(ParseError::SchemaViolation);
        },
        Some(t) => t,
    };
    let note = if c_note == 1 {
        match get_value(&kvs, "note") {
            Some(s) => Some(s),
            None => {
                return Err(ParseError::SchemaViolation);
            },
        }
    } else {
        None
    };
    Ok(Proof { pid, title, note, authors, date, tags, content })
}

// ---------------------------------------------------------------------------
// Week parsing
// ---------------------------------------------------------------------------

/// `stem` names a week: a non-empty digit run whose value is in `1..=255`.
pub open spec fn spec_valid_stem(stem: Seq<char>) -> bool {
    &&& stem.len() >= 1
    &&& all_digits(stem, 0, stem.len() as int)
    &&& 1 <= digits_val(stem, 0, stem.len() as int) <= 255
}

/// The week schema: `date`, `description` and `proofs` each exactly once
/// (other keys, `number` among them, are ignored); `date` in the fixed
/// format; `proofs` a bracketed list of decimal proof ids. The week's
/// number comes from the filename stem alone.
pub open spec fn spec_week_fields(kvs: Seq<Kv>, number: u8) -> Result<WeekView, ParseError> {
    if !(count_key(kvs, "date"@, 0) == 1 && count_key(kvs, "description"@, 0) == 1 && count_key(
        kvs,
        "proofs"@,
        0,
    ) == 1) {
        Err(ParseError::SchemaViolation)
    } else {
        match spec_parse_date(first_value(kvs, "date"@, 0)) {
            None => Err(ParseError::DateFormatMismatch),
            Some(date) => match spec_parse_u64_list(first_value(kvs, "proofs"@, 0)) {
                None => Err(ParseError::SchemaViolation),
                Some(ids) => Ok(
                    WeekView {
                        number,
                        date,
                        description: first_value(kvs, "description"@, 0),
                        proofs: ids,
                    },
                ),
            },
        }
    }
}

/// What `parse_week` returns on a given body text and filename stem.
pub open spec fn spec_parse_week(s: Seq<char>, stem: Seq<char>) -> Result<WeekView, ParseError> {
    if !spec_valid_stem(stem) {
        Err(ParseError::InvalidIdentifier)
    } else {
        match spec_kvs(s, 0) {
            None => Err(ParseError::SchemaViolation),
            Some(kvs) => spec_week_fields(
                kvs,
                digits_val(stem, 0, stem.len() as int) as u8,
            ),
        }
    }
}

/// Parses one week descriptor: the body supplies `date`, `description` and
/// `proofs`; the week's `number` is derived from `stem`, the descriptor's
/// filename stem, never from the body.
pub fn parse_week(text: &str, stem: &str) -> (r: Result<Week, ParseError>)
    ensures
        match r {
            Ok(w) => spec_parse_week(text@, stem@) == Ok::<WeekView, ParseError>(w@),
            Err(e) => spec_parse_week(text@, stem@) == Err::<WeekView, ParseError>(e),
        },
{
    let number: u8 = match parse_u64_str(stem) {
        None => {
            return Err(ParseError::InvalidIdentifier);
        },
        Some(x) => {
            if x < 1 || x > 255 {
                return Err(ParseError::InvalidIdentifier);
            }
            (x as u8)
        },
    };
    let kvs = match parse_kv_block(text) {
        None => {
            return Err(ParseError::SchemaViolation);
        },
        Some(kvs) => kvs,
    };
    let c_date = count_key_exec(&kvs, "date");
    let c_desc = count_key_exec(&kvs, "description");
    let c_proofs = count_key_exec(&kvs, "proofs");
    if !(c_date == 1 && c_desc == 1 && c_proofs == 1) {
        return Err(ParseError::SchemaViolation);
    }
    let date_s = match get_value(&kvs, "date") {
        Some(s) => s,
        None => {
            return Err(ParseError::SchemaViolation);
        },
    };
    let date = match parse_date_str(date_s.as_str()) {
        None => {
            return Err(ParseError::DateFormatMismatch);
        },
        Some(d) => d,
    };
    let description = match get_value(&kvs, "description") {
        Some(s) => s,
        None => {
            return Err(ParseError::SchemaViolation);
        },
    };
    let proofs_s = match get_value(&kvs, "proofs") {
        Some(s) => s,
        None => {
            return Err(ParseError::SchemaViolation);
        },
    };
    let proofs = match parse_u64_list(proofs_s.as_str()) {
        None => {
            return Err(ParseError::SchemaViolation);
        },
        Some(ids) => ids,
    };
    Ok(Week { number, date, description, proofs })
}

} // verus!
