use vstd::prelude::*;

use jiff::Zoned;

use crate::task::{
    jiff_reads_as, lemma_status_key_roundtrip, parse_zoned, rfc9557_text, round_to_second, rounded_to_second,
    status_key, status_of_key, zoned_text, Status, Task,
};
use crate::text::{
    chars_of, decimal, is_digit, lemma_decimal_digits, lemma_parse_decimal, parse_u32, parse_u32_spec,
    push_char, push_decimal, string_of,
};

verus! {

/// Why a stored task list could not be read.
#[derive(Debug, PartialEq, Eq, Structural)]
pub enum FileError {
    InvalidTask,
    MissingTasks,
}

/// The message that reports a file error.
pub open spec fn file_error_text(e: FileError) -> Seq<char> {
    match e {
        FileError::InvalidTask => "Error: Inavlid Task found in json file"@,
        FileError::MissingTasks => "Error: Tasks array is missing from json file"@,
    }
}

impl FileError {
    /// The message shown for the error.
    pub fn message(&self) -> (res: String)
        ensures
            res@ == file_error_text(*self),
    {
        match self {
            FileError::InvalidTask => string_of("Error: Inavlid Task found in json file"),
            FileError::MissingTasks => string_of("Error: Tasks array is missing from json file"),
        }
    }
}

/// A task as the file stores it, with its timestamps as text.
#[derive(Debug, PartialEq, Clone)]
pub struct TaskRecord {
    pub id: u32,
    pub desc: String,
    pub status: Status,
    pub created_at: String,
    pub updated_at: String,
}

/// `TaskRecord` with its texts taken as character sequences.
pub struct RecordView {
    pub id: u32,
    pub desc: Seq<char>,
    pub status: Status,
    pub created_at: Seq<char>,
    pub updated_at: Seq<char>,
}

impl View for TaskRecord {
    type V = RecordView;

    open spec fn view(&self) -> RecordView {
        RecordView {
            id: self.id,
            desc: self.desc@,
            status: self.status,
            created_at: self.created_at@,
            updated_at: self.updated_at@,
        }
    }
}

/// The views of a list of records.
pub open spec fn record_views(rs: Seq<TaskRecord>) -> Seq<RecordView> {
    rs.map_values(|r: TaskRecord| r@)
}

// ---------------------------------------------------------------------------
// Writing

/// The JSON object of one task, as `Task::to_json` writes it.
pub open spec fn record_json(r: RecordView) -> Seq<char> {
    "{\n    \"id\": "@ + decimal(r.id as nat) + ",\n    \"desc\": \""@ + r.desc
        + "\",\n    \"status\": \""@ + status_key(r.status) + "\",\n    \"created_at\": \""@
        + r.created_at + "\",\n    \"updated_at\": \""@ + r.updated_at + "\"\n}"@
}

/// The eight spaces that indent a stored task.
pub open spec fn nl_indent() -> Seq<char> {
    "\n        "@
}

/// Text whose line breaks (`\n`, or `\r\n`) are each followed by eight spaces of indentation,
/// as joining the indented lines of the text gives.
pub open spec fn indent_lines(t: Seq<char>) -> Seq<char>
    decreases t.len(),
{
    if t.len() == 0 {
        t
    } else if t.len() >= 2 && t[0] == '\r' && t[1] == '\n' {
        nl_indent() + indent_lines(t.skip(2))
    } else if t[0] == '\n' {
        nl_indent() + indent_lines(t.skip(1))
    } else {
        seq![t[0]] + indent_lines(t.skip(1))
    }
}

/// One task as the file stores it: its JSON object with every line indented by eight spaces.
pub open spec fn record_block(r: RecordView) -> Seq<char> {
    "        {\n            \"id\": "@ + decimal(r.id as nat) + ",\n            \"desc\": \""@
        + indent_lines(r.desc) + "\",\n            \"status\": \""@ + status_key(r.status)
        + "\",\n            \"created_at\": \""@ + indent_lines(r.created_at)
        + "\",\n            \"updated_at\": \""@ + indent_lines(r.updated_at) + "\"\n        }"@
}

/// Blocks joined with a comma and a line break.
pub open spec fn join_blocks(bs: Seq<Seq<char>>) -> Seq<char>
    decreases bs.len(),
{
    if bs.len() == 0 {
        Seq::empty()
    } else if bs.len() == 1 {
        bs[0]
    } else {
        join_blocks(bs.drop_last()) + ",\n"@ + bs.last()
    }
}

/// The opening of the file, up to the first task.
pub open spec fn file_head() -> Seq<char> {
    "{\n    \"tasks\": [\n"@
}

/// The file that stores the given tasks.
pub open spec fn records_json(rs: Seq<RecordView>) -> Seq<char> {
    file_head() + join_blocks(rs.map_values(|r: RecordView| record_block(r))) + "\n    ]\n}"@
}

/// Appends `t` to `out`, indenting after each of its line breaks.
fn push_indented(out: &mut String, t: &Vec<char>)
    ensures
        final(out)@ == old(out)@ + indent_lines(t@),
{
    let mut i: usize = 0;
    assert(t@.skip(0) == t@);
    while i < t.len()
        invariant
            0 <= i <= t.len(),
            out@ + indent_lines(t@.skip(i as int)) == old(out)@ + indent_lines(t@),
        decreases t.len() - i,
    {
        let ghost rest = t@.skip(i as int);
        if i + 1 < t.len() && t[i] == '\r' && t[i + 1] == '\n' {
            assert(rest.skip(2) == t@.skip(i + 2));
            out.append("\n        ");
            i = i + 2;
        } else if t[i] == '\n' {
            assert(rest.skip(1) == t@.skip(i + 1));
            out.append("\n        ");
            i = i + 1;
        } else {
            assert(rest.skip(1) == t@.skip(i + 1));
            push_char(out, t[i]);
            i = i + 1;
        }
    }
    assert(t@.skip(i as int).len() == 0);
}

impl TaskRecord {
    /// The JSON object of the record.
    pub fn to_json(&self) -> (res: String)
        ensures
            res@ == record_json(self@),
    {
        let mut s = string_of("{\n    \"id\": ");
        push_decimal(&mut s, self.id);
        s.append(",\n    \"desc\": \"");
        s.append(self.desc.as_str());
        s.append("\",\n    \"status\": \"");
        s.append(self.status.as_str());
        s.append("\",\n    \"created_at\": \"");
        s.append(self.created_at.as_str());
        s.append("\",\n    \"updated_at\": \"");
        s.append(self.updated_at.as_str());
        s.append("\"\n}");
        s
    }

    /// Appends the record as the file stores it.
    fn push_block(&self, out: &mut String)
        ensures
            final(out)@ == old(out)@ + record_block(self@),
    {
        out.append("        {\n            \"id\": ");
        push_decimal(out, self.id);
        out.append(",\n            \"desc\": \"");
        push_indented(out, &chars_of(self.desc.as_str()));
        out.append("\",\n            \"status\": \"");
        out.append(self.status.as_str());
        out.append("\",\n            \"created_at\": \"");
        push_indented(out, &chars_of(self.created_at.as_str()));
        out.append("\",\n            \"updated_at\": \"");
        push_indented(out, &chars_of(self.updated_at.as_str()));
        out.append("\"\n        }");
    }
}

/// The file text that stores the records.
pub fn records_to_json(records: &Vec<TaskRecord>) -> (res: String)
    ensures
        res@ == records_json(record_views(records@)),
{
    let ghost blocks = record_views(records@).map_values(|r: RecordView| record_block(r));
    let mut s = string_of("{\n    \"tasks\": [\n");
    let mut i: usize = 0;
    while i < records.len()
        invariant
            0 <= i <= records.len(),
            blocks == record_views(records@).map_values(|r: RecordView| record_block(r)),
            s@ == file_head() + join_blocks(blocks.take(i as int)),
        decreases records.len() - i,
    {
        proof {
            assert(blocks.take(i + 1).drop_last() == blocks.take(i as int));
            assert(blocks[i as int] == record_block(records@[i as int]@));
        }
        if i > 0 {
            s.append(",\n");
        }
        records[i].push_block(&mut s);
        proof {
            if i == 0 {
                assert(blocks.take(1) =~= seq![blocks[0]]);
            }
        }
        i = i + 1;
    }
    assert(blocks.take(i as int) == blocks);
    s.append("\n    ]\n}");
    s
}

// ---------------------------------------------------------------------------
// Searching text

/// Whether `pat` occurs in `s` at position `i`.
pub open spec fn matches_at(s: Seq<char>, pat: Seq<char>, i: int) -> bool {
    0 <= i && i + pat.len() <= s.len() && s.subrange(i, i + pat.len()) == pat
}

/// The first position at or after `i` where `pat` occurs in `s`.
pub open spec fn find_from(s: Seq<char>, pat: Seq<char>, i: int) -> Option<int>
    decreases s.len() - i,
{
    if i < 0 || i + pat.len() > s.len() {
        None
    } else if matches_at(s, pat, i) {
        Some(i)
    } else if i >= s.len() {
        None
    } else {
        find_from(s, pat, i + 1)
    }
}

/// The first position where `pat` occurs in `s`, as `str::find` gives it.
pub open spec fn find_first(s: Seq<char>, pat: Seq<char>) -> Option<int> {
    find_from(s, pat, 0)
}

/// The last position at or before `i` where `pat` occurs in `s`.
pub open spec fn rfind_upto(s: Seq<char>, pat: Seq<char>, i: int) -> Option<int>
    decreases i + 1,
{
    if i < 0 {
        None
    } else if matches_at(s, pat, i) {
        Some(i)
    } else {
        rfind_upto(s, pat, i - 1)
    }
}

/// The last position where `pat` occurs in `s`, as `str::rfind` gives it.
pub open spec fn find_last(s: Seq<char>, pat: Seq<char>) -> Option<int> {
    rfind_upto(s, pat, s.len() - pat.len())
}

pub proof fn lemma_find_from(s: Seq<char>, pat: Seq<char>, i: int)
    requires
        0 <= i,
    ensures
        match find_from(s, pat, i) {
            Some(j) => i <= j && matches_at(s, pat, j) && forall|k: int|
                i <= k < j ==> !matches_at(s, pat, k),
            None => forall|k: int| i <= k ==> !matches_at(s, pat, k),
        },
    decreases s.len() - i,
{
    if i + pat.len() > s.len() {
    } else if matches_at(s, pat, i) {
    } else if i >= s.len() {
    } else {
        lemma_find_from(s, pat, i + 1);
    }
}

/// The pieces of `s` between the occurrences of `pat`, as `str::split` gives them.
pub open spec fn split_on(s: Seq<char>, pat: Seq<char>) -> Seq<Seq<char>>
    decreases s.len(),
{
    if pat.len() == 0 {
        seq![s]
    } else {
        match find_first(s, pat) {
            None => seq![s],
            Some(i) => {
                proof {
                    lemma_find_from(s, pat, 0);
                }
                seq![s.take(i)] + split_on(s.skip(i + pat.len()), pat)
            },
        }
    }
}

/// `s` without its leading characters that are `a` or `b`.
pub open spec fn trim_front_pair(s: Seq<char>, a: char, b: char) -> Seq<char>
    decreases s.len(),
{
    if s.len() > 0 && (s[0] == a || s[0] == b) {
        trim_front_pair(s.skip(1), a, b)
    } else {
        s
    }
}

/// `s` without its trailing characters that are `a` or `b`.
pub open spec fn trim_back_pair(s: Seq<char>, a: char, b: char) -> Seq<char>
    decreases s.len(),
{
    if s.len() > 0 && (s.last() == a || s.last() == b) {
        trim_back_pair(s.drop_last(), a, b)
    } else {
        s
    }
}

/// `s` without the characters `a` and `b` at either end, as `str::trim_matches` gives it.
pub open spec fn trim_pair(s: Seq<char>, a: char, b: char) -> Seq<char> {
    trim_back_pair(trim_front_pair(s, a, b), a, b)
}

/// Whether `c` is white space in the sense of `char::is_whitespace` (Unicode `White_Space`).
pub open spec fn is_whitespace(c: char) -> bool {
    let n = c as u32;
    (9 <= n <= 13) || n == 32 || n == 0x85 || n == 0xA0 || n == 0x1680 || (0x2000 <= n <= 0x200A)
        || n == 0x2028 || n == 0x2029 || n == 0x202F || n == 0x205F || n == 0x3000
}

/// Whether `s` is empty once white space is trimmed from both ends.
pub open spec fn all_whitespace(s: Seq<char>) -> bool {
    forall|i: int| 0 <= i < s.len() ==> is_whitespace(#[trigger] s[i])
}

// ---------------------------------------------------------------------------
// Reading

/// What looking up one value of a stored task gives.
pub enum Field {
    /// The text between the key and the delimiter that follows it.
    Found(Seq<char>),
    /// The key is absent: the task is refused.
    Missing,
    /// The delimiter is absent, or its last occurrence comes before the key ends: a file
    /// on which reading would stop.
    Broken,
}

/// The value that stands after the first `before` and before the last `after`.
pub open spec fn field_between(t: Seq<char>, before: Seq<char>, after: Seq<char>) -> Field {
    match find_first(t, before) {
        None => Field::Missing,
        Some(i) => match find_last(t, after) {
            None => Field::Broken,
            Some(j) => if i + before.len() <= j {
                Field::Found(t.subrange(i + before.len(), j))
            } else {
                Field::Broken
            },
        },
    }
}

/// The keys of a stored task, in order, each one ending where its value starts;
/// the last entry closes the last value.
pub open spec fn json_keys() -> Seq<Seq<char>> {
    seq![
        "\"id\": "@,
        ",\n            \"desc\": \""@,
        "\",\n            \"status\": \""@,
        "\",\n            \"created_at\": \""@,
        "\",\n            \"updated_at\": \""@,
        "\""@,
    ]
}

/// What looking up the values of a stored task gives.
pub enum Fields {
    Values(Seq<Seq<char>>),
    Missing,
    Broken,
}

/// The values between consecutive keys, from key `i` on; the first failure decides.
pub open spec fn fields_from(t: Seq<char>, keys: Seq<Seq<char>>, i: int) -> Fields
    decreases keys.len() - i,
{
    if i < 0 || i + 1 >= keys.len() {
        Fields::Values(Seq::empty())
    } else {
        match field_between(t, keys[i], keys[i + 1]) {
            Field::Missing => Fields::Missing,
            Field::Broken => Fields::Broken,
            Field::Found(v) => match fields_from(t, keys, i + 1) {
                Fields::Values(vs) => Fields::Values(seq![v] + vs),
                other => other,
            },
        }
    }
}

/// What reading one stored task gives.
pub enum PartOutcome {
    Record(RecordView),
    /// A key is missing: the file is refused as holding an invalid task.
    Rejected,
    /// A task on which reading would stop: a delimiter is missing or misplaced, or the id
    /// or the status does not parse.
    Broken,
}

/// What reading the text of one stored task gives.
pub open spec fn part_outcome(t: Seq<char>) -> PartOutcome {
    match fields_from(t, json_keys(), 0) {
        Fields::Missing => PartOutcome::Rejected,
        Fields::Broken => PartOutcome::Broken,
        Fields::Values(vs) => match (parse_u32_spec(vs[0]), status_of_key(vs[2])) {
            (Some(id), Some(st)) => PartOutcome::Record(
                RecordView {
                    id: id,
                    desc: vs[1],
                    status: st,
                    created_at: vs[3],
                    updated_at: vs[4],
                },
            ),
            _ => PartOutcome::Broken,
        },
    }
}

/// What reading a stored file gives.
pub enum ReadOutcome {
    Parsed(Seq<RecordView>),
    Rejected(FileError),
    /// A file on which reading would stop.
    Broken,
}

/// The separator between stored tasks.
pub open spec fn task_separator() -> Seq<char> {
    "},\n        {"@
}

/// The end of the file after the last task.
pub open spec fn file_tail() -> Seq<char> {
    "]\n}"@
}

/// Reads the stored tasks one after another; the first that fails decides.
pub open spec fn parts_outcome(parts: Seq<Seq<char>>) -> ReadOutcome
    decreases parts.len(),
{
    if parts.len() == 0 {
        ReadOutcome::Parsed(Seq::empty())
    } else {
        match part_outcome(trim_pair(parts[0], '{', '}')) {
            PartOutcome::Rejected => ReadOutcome::Rejected(FileError::InvalidTask),
            PartOutcome::Broken => ReadOutcome::Broken,
            PartOutcome::Record(r) => match parts_outcome(parts.skip(1)) {
                ReadOutcome::Parsed(rs) => ReadOutcome::Parsed(seq![r] + rs),
                other => other,
            },
        }
    }
}

/// What reading the text of a stored file gives. An empty file holds no tasks.
pub open spec fn read_outcome(json: Seq<char>) -> ReadOutcome {
    if json.len() == 0 {
        ReadOutcome::Parsed(Seq::empty())
    } else if !matches_at(json, file_head(), 0) {
        ReadOutcome::Rejected(FileError::MissingTasks)
    } else {
        let rest = json.skip(file_head().len() as int);
        if !matches_at(rest, file_tail(), rest.len() - file_tail().len()) {
            ReadOutcome::Rejected(FileError::MissingTasks)
        } else {
            let inner = rest.take(rest.len() - file_tail().len());
            if all_whitespace(inner) {
                ReadOutcome::Parsed(Seq::empty())
            } else {
                parts_outcome(split_on(trim_pair(inner, '[', ']'), task_separator()))
            }
        }
    }
}

/// The characters of `s` from `lo` up to `hi`.
fn sub_chars(s: &Vec<char>, lo: usize, hi: usize) -> (res: Vec<char>)
    requires
        lo <= hi <= s.len(),
    ensures
        res@ == s@.subrange(lo as int, hi as int),
{
    let mut res: Vec<char> = Vec::new();
    let mut i: usize = lo;
    while i < hi
        invariant
            lo <= i <= hi <= s.len(),
            res@ == s@.subrange(lo as int, i as int),
        decreases hi - i,
    {
        res.push(s[i]);
        i = i + 1;
    }
    res
}

/// A string holding the given characters.
fn string_from_chars(v: &Vec<char>) -> (res: String)
    ensures
        res@ == v@,
{
    let mut res = String::new();
    let mut i: usize = 0;
    while i < v.len()
        invariant
            0 <= i <= v.len(),
            res@ == v@.take(i as int),
        decreases v.len() - i,
    {
        assert(v@.take(i + 1) == v@.take(i as int).push(v@[i as int]));
        push_char(&mut res, v[i]);
        i = i + 1;
    }
    assert(v@.take(i as int) == v@);
    res
}

/// Whether `pat` occurs in `s` at position `i`.
fn matches_at_exec(s: &Vec<char>, pat: &Vec<char>, i: usize) -> (res: bool)
    ensures
        res == matches_at(s@, pat@, i as int),
{
    if pat.len() > s.len() || i > s.len() - pat.len() {
        return false;
    }
    let mut k: usize = 0;
    while k < pat.len()
        invariant
            0 <= k <= pat.len(),
            i + pat.len() <= s.len(),
            forall|m: int| 0 <= m < k ==> s@[i + m] == pat@[m],
        decreases pat.len() - k,
    {
        if s[i + k] != pat[k] {
            assert(s@.subrange(i as int, i + pat.len())[k as int] != pat@[k as int]);
            return false;
        }
        k = k + 1;
    }
    assert(s@.subrange(i as int, i + pat.len()) =~= pat@);
    true
}

/// The first position where `pat` occurs in `s`.
fn find_exec(s: &Vec<char>, pat: &Vec<char>) -> (res: Option<usize>)
    ensures
        match res {
            Some(j) => find_first(s@, pat@) == Some(j as int),
            None => find_first(s@, pat@) is None,
        },
{
    if pat.len() > s.len() {
        return None;
    }
    let mut i: usize = 0;
    while i <= s.len() - pat.len()
        invariant
            pat.len() <= s.len(),
            0 <= i <= s.len(),
            find_first(s@, pat@) == find_from(s@, pat@, i as int),
        decreases s.len() - i,
    {
        if matches_at_exec(s, pat, i) {
            return Some(i);
        }
        if i >= s.len() {
            return None;
        }
        i = i + 1;
    }
    None
}

/// The last position where `pat` occurs in `s`.
fn rfind_exec(s: &Vec<char>, pat: &Vec<char>) -> (res: Option<usize>)
    ensures
        match res {
            Some(j) => find_last(s@, pat@) == Some(j as int),
            None => find_last(s@, pat@) is None,
        },
{
    if pat.len() > s.len() {
        return None;
    }
    let mut i: usize = s.len() - pat.len();
    loop
        invariant
            i + pat.len() <= s.len(),
            find_last(s@, pat@) == rfind_upto(s@, pat@, i as int),
        decreases i,
    {
        if matches_at_exec(s, pat, i) {
            return Some(i);
        }
        if i == 0 {
            assert(rfind_upto(s@, pat@, -1) is None);
            return None;
        }
        i = i - 1;
    }
}

/// `s` without the characters `a` and `b` at either end.
fn trim_pair_exec(s: &Vec<char>, a: char, b: char) -> (res: Vec<char>)
    ensures
        res@ == trim_pair(s@, a, b),
{
    let mut lo: usize = 0;
    assert(s@.skip(0) == s@);
    while lo < s.len() && (s[lo] == a || s[lo] == b)
        invariant
            0 <= lo <= s.len(),
            trim_front_pair(s@, a, b) == trim_front_pair(s@.skip(lo as int), a, b),
        decreases s.len() - lo,
    {
        assert(s@.skip(lo as int).skip(1) == s@.skip(lo + 1));
        lo = lo + 1;
    }
    let ghost front = s@.skip(lo as int);
    assert(trim_front_pair(s@, a, b) == front);
    let mut hi: usize = s.len();
    assert(front.take(front.len() as int) == front);
    while hi > lo && (s[hi - 1] == a || s[hi - 1] == b)
        invariant
            lo <= hi <= s.len(),
            front == s@.skip(lo as int),
            trim_back_pair(front, a, b) == trim_back_pair(front.take(hi - lo), a, b),
        decreases hi,
    {
        assert(front.take(hi - lo).drop_last() == front.take(hi - lo - 1));
        hi = hi - 1;
    }
    assert(front.take(hi - lo) == s@.subrange(lo as int, hi as int));
    sub_chars(s, lo, hi)
}

/// Whether `c` is white space in the sense of `char::is_whitespace`.
fn is_whitespace_exec(c: char) -> (res: bool)
    ensures
        res == is_whitespace(c),
{
    let n = c as u32;
    (9 <= n && n <= 13) || n == 32 || n == 0x85 || n == 0xA0 || n == 0x1680 || (0x2000 <= n && n
        <= 0x200A) || n == 0x2028 || n == 0x2029 || n == 0x202F || n == 0x205F || n == 0x3000
}

/// Whether every character of `s` is white space.
fn all_whitespace_exec(s: &Vec<char>) -> (res: bool)
    ensures
        res == all_whitespace(s@),
{
    let mut i: usize = 0;
    while i < s.len()
        invariant
            0 <= i <= s.len(),
            forall|k: int| 0 <= k < i ==> is_whitespace(#[trigger] s@[k]),
        decreases s.len() - i,
    {
        if !is_whitespace_exec(s[i]) {
            return false;
        }
        i = i + 1;
    }
    true
}

/// The character sequences of a list of character vectors.
pub open spec fn char_views(vs: Seq<Vec<char>>) -> Seq<Seq<char>> {
    vs.map_values(|v: Vec<char>| v@)
}

/// The pieces of `s` between the occurrences of `pat`.
fn split_exec(s: &Vec<char>, pat: &Vec<char>) -> (res: Vec<Vec<char>>)
    requires
        pat.len() > 0,
    ensures
        char_views(res@) == split_on(s@, pat@),
{
    let mut parts: Vec<Vec<char>> = Vec::new();
    let mut rest = sub_chars(s, 0, s.len());
    assert(s@.subrange(0, s.len() as int) == s@);
    loop
        invariant
            pat.len() > 0,
            split_on(s@, pat@) == char_views(parts@) + split_on(rest@, pat@),
        decreases rest.len(),
    {
        match find_exec(&rest, pat) {
            None => {
                let ghost before = parts@;
                parts.push(rest);
                assert(char_views(parts@) == char_views(before) + seq![rest@]);
                return parts;
            },
            Some(i) => {
                proof {
                    lemma_find_from(rest@, pat@, 0);
                }
                let piece = sub_chars(&rest, 0, i);
                let tail = sub_chars(&rest, i + pat.len(), rest.len());
                assert(piece@ == rest@.take(i as int));
                assert(tail@ == rest@.skip(i + pat.len()));
                let ghost before = parts@;
                parts.push(piece);
                assert(char_views(parts@) == char_views(before) + seq![piece@]);
                rest = tail;
            },
        }
    }
}

/// The result of looking up one value.
enum FieldScan {
    Found(Vec<char>),
    Missing,
    Broken,
}

impl View for FieldScan {
    type V = Field;

    closed spec fn view(&self) -> Field {
        match self {
            FieldScan::Found(v) => Field::Found(v@),
            FieldScan::Missing => Field::Missing,
            FieldScan::Broken => Field::Broken,
        }
    }
}

/// The value after the first `before` and before the last `after`.
fn field_exec(t: &Vec<char>, before: &Vec<char>, after: &Vec<char>) -> (res: FieldScan)
    ensures
        res@ == field_between(t@, before@, after@),
{
    match find_exec(t, before) {
        None => FieldScan::Missing,
        Some(i) => {
            proof {
                lemma_find_from(t@, before@, 0);
            }
            match rfind_exec(t, after) {
                None => FieldScan::Broken,
                Some(j) => {
                    if j >= i && j - i >= before.len() {
                        proof {
                            lemma_rfind_upto(t@, after@, t@.len() - after@.len());
                        }
                        FieldScan::Found(sub_chars(t, i + before.len(), j))
                    } else {
                        FieldScan::Broken
                    }
                },
            }
        },
    }
}

pub proof fn lemma_rfind_upto(s: Seq<char>, pat: Seq<char>, i: int)
    ensures
        match rfind_upto(s, pat, i) {
            Some(j) => 0 <= j <= i && matches_at(s, pat, j) && forall|k: int|
                j < k <= i ==> !matches_at(s, pat, k),
            None => forall|k: int| 0 <= k <= i ==> !matches_at(s, pat, k),
        },
    decreases i + 1,
{
    if i >= 0 && !matches_at(s, pat, i) {
        lemma_rfind_upto(s, pat, i - 1);
    }
}

/// The text between the first `before` and the last `after` of a stored task.
pub fn find_json_value(task: &str, before: &str, after: &str) -> (res: Result<String, FileError>)
    requires
        !(field_between(task@, before@, after@) is Broken),
    ensures
        match field_between(task@, before@, after@) {
            Field::Found(v) => match res {
                Ok(s) => s@ == v,
                Err(_) => false,
            },
            Field::Missing => res == Err::<String, FileError>(FileError::InvalidTask),
            Field::Broken => false,
        },
{
    let t = chars_of(task);
    let b = chars_of(before);
    let a = chars_of(after);
    match field_exec(&t, &b, &a) {
        FieldScan::Found(v) => Ok(string_from_chars(&v)),
        FieldScan::Missing => Err(FileError::InvalidTask),
        FieldScan::Broken => Err(FileError::InvalidTask),
    }
}

/// Puts the values found so far in front of what the remaining lookups give.
pub open spec fn after_values(done: Seq<Seq<char>>, rest: Fields) -> Fields {
    match rest {
        Fields::Values(vs) => Fields::Values(done + vs),
        other => other,
    }
}

proof fn lemma_fields_len(t: Seq<char>, keys: Seq<Seq<char>>, i: int)
    requires
        0 <= i < keys.len(),
    ensures
        fields_from(t, keys, i) matches Fields::Values(vs) ==> vs.len() == keys.len() - 1 - i,
    decreases keys.len() - i,
{
    if i + 1 < keys.len() {
        lemma_fields_len(t, keys, i + 1);
    }
}

/// The keys of a stored task.
fn json_keys_exec() -> (res: Vec<Vec<char>>)
    ensures
        char_views(res@) == json_keys(),
{
    let mut keys: Vec<Vec<char>> = Vec::new();
    keys.push(chars_of("\"id\": "));
    keys.push(chars_of(",\n            \"desc\": \""));
    keys.push(chars_of("\",\n            \"status\": \""));
    keys.push(chars_of("\",\n            \"created_at\": \""));
    keys.push(chars_of("\",\n            \"updated_at\": \""));
    keys.push(chars_of("\""));
    assert(char_views(keys@) =~= json_keys());
    keys
}

/// Reads one stored task: `None` where reading would stop on it.
fn read_part(t: &Vec<char>, keys: &Vec<Vec<char>>) -> (res: Option<Result<TaskRecord, FileError>>)
    requires
        char_views(keys@) == json_keys(),
    ensures
        match res {
            None => part_outcome(t@) is Broken,
            Some(Err(e)) => part_outcome(t@) is Rejected && e == FileError::InvalidTask,
            Some(Ok(r)) => part_outcome(t@) == PartOutcome::Record(r@),
        },
{
    let ghost kv = char_views(keys@);
    let mut values: Vec<Vec<char>> = Vec::new();
    let mut i: usize = 0;
    while i + 1 < keys.len()
        invariant
            kv == char_views(keys@),
            kv == json_keys(),
            0 <= i < keys.len(),
            fields_from(t@, kv, 0) == after_values(char_views(values@), fields_from(t@, kv, i as int)),
        decreases keys.len() - i,
    {
        match field_exec(t, &keys[i], &keys[i + 1]) {
            FieldScan::Missing => {
                return Some(Err(FileError::InvalidTask));
            },
            FieldScan::Broken => {
                return None;
            },
            FieldScan::Found(v) => {
                let ghost before = values@;
                values.push(v);
                assert(char_views(values@) == char_views(before) + seq![v@]);
                proof {
                    let rest = fields_from(t@, kv, i + 1);
                    match rest {
                        Fields::Values(vs) => {
                            assert(char_views(before) + (seq![v@] + vs) == (char_views(before)
                                + seq![v@]) + vs);
                        },
                        _ => {},
                    }
                }
                i = i + 1;
            },
        }
    }
    assert(fields_from(t@, kv, i as int) == Fields::Values(Seq::<Seq<char>>::empty()));
    assert(char_views(values@) + Seq::<Seq<char>>::empty() == char_views(values@));
    proof {
        lemma_fields_len(t@, kv, 0);
    }
    let id = match parse_u32(&values[0]) {
        Some(n) => n,
        None => {
            return None;
        },
    };
    let key = string_from_chars(&values[2]);
    let status = match Status::from_key(key.as_str()) {
        Ok(st) => st,
        Err(_) => {
            return None;
        },
    };
    Some(
        Ok(
            TaskRecord {
                id,
                desc: string_from_chars(&values[1]),
                status,
                created_at: string_from_chars(&values[3]),
                updated_at: string_from_chars(&values[4]),
            },
        ),
    )
}

/// Puts the records read so far in front of what reading the remaining tasks gives.
pub open spec fn after_records(done: Seq<RecordView>, rest: ReadOutcome) -> ReadOutcome {
    match rest {
        ReadOutcome::Parsed(rs) => ReadOutcome::Parsed(done + rs),
        other => other,
    }
}

/// Reads the records of a stored file: `None` where reading would stop on it
/// (see `read_outcome`), otherwise the records or the reason the file is refused.
pub fn scan_records(json: &str) -> (res: Option<Result<Vec<TaskRecord>, FileError>>)
    ensures
        match res {
            None => read_outcome(json@) is Broken,
            Some(Ok(rs)) => read_outcome(json@) == ReadOutcome::Parsed(record_views(rs@)),
            Some(Err(e)) => read_outcome(json@) == ReadOutcome::Rejected(e),
        },
{
    let c = chars_of(json);
    let mut records: Vec<TaskRecord> = Vec::new();
    if c.len() == 0 {
        assert(record_views(records@) =~= Seq::<RecordView>::empty());
        return Some(Ok(records));
    }
    let head = chars_of("{\n    \"tasks\": [\n");
    if !matches_at_exec(&c, &head, 0) {
        return Some(Err(FileError::MissingTasks));
    }
    let rest = sub_chars(&c, head.len(), c.len());
    assert(rest@ == c@.skip(file_head().len() as int));
    let tail = chars_of("]\n}");
    if rest.len() < tail.len() || !matches_at_exec(&rest, &tail, rest.len() - tail.len()) {
        return Some(Err(FileError::MissingTasks));
    }
    let inner = sub_chars(&rest, 0, rest.len() - tail.len());
    assert(inner@ == rest@.take(rest@.len() - file_tail().len()));
    if all_whitespace_exec(&inner) {
        assert(record_views(records@) =~= Seq::<RecordView>::empty());
        return Some(Ok(records));
    }
    let body = trim_pair_exec(&inner, '[', ']');
    let separator = chars_of("},\n        {");
    proof {
        reveal_strlit("},\n        {");
    }
    let parts = split_exec(&body, &separator);
    let keys = json_keys_exec();
    let ghost pv = char_views(parts@);
    assert(read_outcome(json@) == parts_outcome(pv));
    assert(pv.skip(0) == pv);
    let mut i: usize = 0;
    while i < parts.len()
        invariant
            0 <= i <= parts.len(),
            pv == char_views(parts@),
            read_outcome(json@) == parts_outcome(pv),
            char_views(keys@) == json_keys(),
            parts_outcome(pv) == after_records(record_views(records@), parts_outcome(pv.skip(i as int))),
        decreases parts.len() - i,
    {
        let task = trim_pair_exec(&parts[i], '{', '}');
        assert(pv.skip(i as int)[0] == parts@[i as int]@);
        assert(pv.skip(i as int).skip(1) == pv.skip(i + 1));
        match read_part(&task, &keys) {
            None => {
                assert(parts_outcome(pv.skip(i as int)) is Broken);
                return None;
            },
            Some(Err(e)) => {
                assert(parts_outcome(pv.skip(i as int)) == ReadOutcome::Rejected(e));
                return Some(Err(e));
            },
            Some(Ok(r)) => {
                let ghost before = records@;
                records.push(r);
                assert(record_views(records@) == record_views(before) + seq![r@]);
                proof {
                    match parts_outcome(pv.skip(i + 1)) {
                        ReadOutcome::Parsed(rs) => {
                            assert(record_views(before) + (seq![r@] + rs) == (record_views(before)
                                + seq![r@]) + rs);
                        },
                        _ => {},
                    }
                }
                i = i + 1;
            },
        }
    }
    assert(pv.skip(i as int).len() == 0);
    assert(record_views(records@) + Seq::<RecordView>::empty() == record_views(records@));
    Some(Ok(records))
}

// ---------------------------------------------------------------------------
// Tasks and records

/// Whether a record stores the id, description and status of a task.
pub open spec fn record_matches(r: RecordView, t: Task) -> bool {
    r.id == t.id && r.desc == t.desc@ && r.status == t.status
}

/// Whether the records store the tasks, one for one and in order.
pub open spec fn records_match(rs: Seq<RecordView>, ts: Seq<Task>) -> bool {
    rs.len() == ts.len() && forall|i: int| 0 <= i < rs.len() ==> record_matches(rs[i], ts[i])
}

/// The record that stores a task: its id, description and status, and its times rounded to
/// the second and written as RFC 9557 text; `None` where rounding a time fails.
pub open spec fn task_record(t: Task) -> Option<RecordView> {
    match (rounded_to_second(t.created_at), rounded_to_second(t.updated_at)) {
        (Some(c), Some(u)) => Some(
            RecordView {
                id: t.id,
                desc: t.desc@,
                status: t.status,
                created_at: rfc9557_text(c),
                updated_at: rfc9557_text(u),
            },
        ),
        _ => None,
    }
}

/// The records that store the tasks, in order; `None` where rounding a time of one fails.
pub open spec fn task_records(ts: Seq<Task>) -> Option<Seq<RecordView>> {
    if forall|i: int| 0 <= i < ts.len() ==> #[trigger] task_record(ts[i]) is Some {
        Some(Seq::new(ts.len(), |i: int| task_record(ts[i])->0))
    } else {
        None
    }
}

impl Task {
    /// The task as the file stores it, with its times rounded to the second and written as
    /// RFC 9557 text; `None` where rounding a time fails.
    pub fn to_record(&self) -> (res: Option<TaskRecord>)
        ensures
            match res {
                Some(r) => task_record(*self) == Some(r@),
                None => task_record(*self) is None,
            },
    {
        let created = round_to_second(&self.created_at)?;
        let updated = round_to_second(&self.updated_at)?;
        Some(
            TaskRecord {
                id: self.id,
                desc: string_of(self.desc.as_str()),
                status: self.status,
                created_at: zoned_text(&created),
                updated_at: zoned_text(&updated),
            },
        )
    }

    /// The task that a record stores, given what its two time texts were read as: `None`
    /// where either text was refused, else the record's id, description and status with
    /// those times.
    pub fn from_parsed(r: &TaskRecord, created_at: Option<Zoned>, updated_at: Option<Zoned>) -> (res:
        Option<Task>)
        ensures
            match (created_at, updated_at) {
                (Some(c), Some(u)) => res matches Some(t) && record_matches(r@, t) && t.created_at
                    == c && t.updated_at == u,
                _ => res is None,
            },
    {
        let created_at = created_at?;
        let updated_at = updated_at?;
        Some(
            Task {
                id: r.id,
                desc: string_of(r.desc.as_str()),
                status: r.status,
                created_at,
                updated_at,
            },
        )
    }

    /// The task whose times the record's texts denote; `None` where one does not parse.
    /// Which texts parse depends on the machine's time zone database, so the outcome of
    /// each parse is handed to `Task::from_parsed`, whose contract says what follows.
    pub fn from_record(r: &TaskRecord) -> (res: Option<Task>)
        ensures
            res matches Some(t) ==> record_matches(r@, t) && jiff_reads_as(r.created_at@, t.created_at)
                && jiff_reads_as(r.updated_at@, t.updated_at),
    {
        let created_at = parse_zoned(r.created_at.as_str());
        let updated_at = parse_zoned(r.updated_at.as_str());
        Task::from_parsed(r, created_at, updated_at)
    }

    /// The JSON object of the task, its times rounded to the second; `None` where rounding
    /// a time fails.
    pub fn to_json(&self) -> (res: Option<String>)
        ensures
            match task_record(*self) {
                Some(r) => res matches Some(s) && s@ == record_json(r),
                None => res is None,
            },
    {
        let record = self.to_record()?;
        Some(record.to_json())
    }
}

/// The file text that stores the tasks; `None` where rounding a time fails.
pub fn tasks_to_json(tasks: Vec<Task>) -> (res: Option<String>)
    ensures
        match task_records(tasks@) {
            Some(rs) => res matches Some(s) && s@ == records_json(rs),
            None => res is None,
        },
{
    let mut records: Vec<TaskRecord> = Vec::new();
    let mut i: usize = 0;
    while i < tasks.len()
        invariant
            0 <= i <= tasks.len(),
            records.len() == i,
            forall|j: int| 0 <= j < i ==> #[trigger] task_record(tasks@[j]) == Some(records@[j]@),
        decreases tasks.len() - i,
    {
        let r = match tasks[i].to_record() {
            Some(r) => r,
            None => {
                assert(!(task_record(tasks@[i as int]) is Some));
                return None;
            },
        };
        records.push(r);
        i = i + 1;
    }
    let s = records_to_json(&records);
    assert(record_views(records@) =~= task_records(tasks@)->0);
    Some(s)
}

/// Whether reading the text would not stop: every task has its delimiters in place and a
/// valid id and status, or the file is refused.
pub fn json_is_readable(json: &str) -> (res: bool)
    ensures
        res == !(read_outcome(json@) is Broken),
{
    scan_records(json).is_some()
}

/// Whether every record's two times were read.
pub open spec fn all_times_read(times: Seq<(Option<Zoned>, Option<Zoned>)>) -> bool {
    forall|i: int| 0 <= i < times.len() ==> (#[trigger] times[i]).0 is Some && times[i].1 is Some
}

/// The tasks that the records store, given what the two time texts of each record were read
/// as: `None` where a text was refused, else the records' ids, descriptions and statuses, in
/// order, with those times.
pub fn tasks_from_times(records: &Vec<TaskRecord>, times: Vec<(Option<Zoned>, Option<Zoned>)>) -> (res:
    Option<Vec<Task>>)
    requires
        times.len() == records.len(),
    ensures
        res is Some <==> all_times_read(times@),
        res matches Some(ts) ==> records_match(record_views(records@), ts@) && forall|i: int|
            0 <= i < ts.len() ==> (#[trigger] ts@[i]).created_at == times@[i].0->0
                && ts@[i].updated_at == times@[i].1->0,
{
    let mut tasks: Vec<Task> = Vec::new();
    let mut i: usize = 0;
    while i < records.len()
        invariant
            0 <= i <= records.len(),
            times.len() == records.len(),
            tasks.len() == i,
            forall|j: int| 0 <= j < i ==> (#[trigger] times@[j]).0 is Some && times@[j].1 is Some,
            forall|j: int|
                0 <= j < i ==> record_matches(records@[j]@, #[trigger] tasks@[j])
                    && tasks@[j].created_at == times@[j].0->0 && tasks@[j].updated_at
                    == times@[j].1->0,
        decreases records.len() - i,
    {
        let (c, u) = (times[i].0.clone(), times[i].1.clone());
        match Task::from_parsed(&records[i], c, u) {
            Some(t) => {
                tasks.push(t);
            },
            None => {
                assert(!((times@[i as int]).0 is Some && times@[i as int].1 is Some));
                return None;
            },
        }
        i = i + 1;
    }
    Some(tasks)
}

/// Reads the tasks that a file stores. An empty file holds no tasks.
///
/// Where a stored time is refused, the file is refused as holding an invalid task; a time
/// that is read is one that jiff reads the stored text as.
pub fn read_json(json: String) -> (res: Result<Vec<Task>, FileError>)
    requires
        !(read_outcome(json@) is Broken),
    ensures
        match read_outcome(json@) {
            ReadOutcome::Rejected(e) => res == Err::<Vec<Task>, FileError>(e),
            ReadOutcome::Parsed(rs) => match res {
                Ok(ts) => records_match(rs, ts@) && forall|i: int|
                    0 <= i < ts.len() ==> jiff_reads_as(rs[i].created_at, (#[trigger] ts@[i]).created_at)
                        && jiff_reads_as(rs[i].updated_at, ts@[i].updated_at),
                Err(e) => e == FileError::InvalidTask && rs.len() > 0,
            },
            ReadOutcome::Broken => false,
        },
{
    let records = match scan_records(json.as_str()) {
        Some(Ok(rs)) => rs,
        Some(Err(e)) => {
            return Err(e);
        },
        None => {
            return Err(FileError::InvalidTask);
        },
    };
    let ghost rv = record_views(records@);
    let mut times: Vec<(Option<Zoned>, Option<Zoned>)> = Vec::new();
    let mut i: usize = 0;
    while i < records.len()
        invariant
            0 <= i <= records.len(),
            rv == record_views(records@),
            times.len() == i,
            forall|j: int|
                0 <= j < i ==> ((#[trigger] times@[j]).0 matches Some(z) ==> jiff_reads_as(
                    rv[j].created_at,
                    z,
                )) && (times@[j].1 matches Some(z) ==> jiff_reads_as(rv[j].updated_at, z)),
        decreases records.len() - i,
    {
        let c = parse_zoned(records[i].created_at.as_str());
        let u = parse_zoned(records[i].updated_at.as_str());
        times.push((c, u));
        i = i + 1;
    }
    let ghost tv = times@;
    match tasks_from_times(&records, times) {
        Some(tasks) => {
            assert forall|j: int| 0 <= j < tasks.len() implies jiff_reads_as(
                rv[j].created_at,
                (#[trigger] tasks@[j]).created_at,
            ) && jiff_reads_as(rv[j].updated_at, tasks@[j].updated_at) by {
                assert(tv[j].0 is Some && tv[j].1 is Some);
            }
            Ok(tasks)
        },
        None => {
            assert(!all_times_read(tv));
            Err(FileError::InvalidTask)
        },
    }
}

// ---------------------------------------------------------------------------
// Reading back what was written

/// Whether a text can stand in a stored value unchanged: it holds no line break.
pub open spec fn plain_text(s: Seq<char>) -> bool {
    forall|i: int| 0 <= i < s.len() ==> #[trigger] s[i] != '\n'
}

/// Whether the texts of a record can stand in the file unchanged.
pub open spec fn plain_record(r: RecordView) -> bool {
    plain_text(r.desc) && plain_text(r.created_at) && plain_text(r.updated_at)
}

proof fn lemma_match_char(s: Seq<char>, pat: Seq<char>, k: int, q: int)
    requires
        matches_at(s, pat, k),
        0 <= q < pat.len(),
    ensures
        s[k + q] == pat[q],
{
    assert(s.subrange(k, k + pat.len())[q] == s[k + q]);
}

proof fn lemma_find_first_at(s: Seq<char>, pat: Seq<char>, j: int)
    requires
        matches_at(s, pat, j),
        forall|k: int| 0 <= k < j ==> !matches_at(s, pat, k),
    ensures
        find_first(s, pat) == Some(j),
{
    lemma_find_from(s, pat, 0);
}

proof fn lemma_find_last_at(s: Seq<char>, pat: Seq<char>, j: int)
    requires
        matches_at(s, pat, j),
        forall|k: int| j < k ==> !matches_at(s, pat, k),
    ensures
        find_last(s, pat) == Some(j),
{
    lemma_rfind_upto(s, pat, s.len() - pat.len());
}

proof fn lemma_find_none(s: Seq<char>, pat: Seq<char>)
    requires
        forall|k: int| 0 <= k ==> !matches_at(s, pat, k),
    ensures
        find_first(s, pat) is None,
{
    lemma_find_from(s, pat, 0);
}

proof fn lemma_indent_plain(t: Seq<char>)
    requires
        forall|i: int| 0 <= i < t.len() ==> t[i] != '\n',
    ensures
        indent_lines(t) == t,
    decreases t.len(),
{
    if t.len() > 0 {
        assert(forall|i: int| 0 <= i < t.skip(1).len() ==> t.skip(1)[i] == t[i + 1]);
        lemma_indent_plain(t.skip(1));
        assert(t[0] != '\n');
        assert(seq![t[0]] + t.skip(1) == t);
    }
}

proof fn lemma_join_blocks_front(bs: Seq<Seq<char>>)
    requires
        bs.len() >= 2,
    ensures
        join_blocks(bs) == bs[0] + ",\n"@ + join_blocks(bs.skip(1)),
    decreases bs.len(),
{
    if bs.len() == 2 {
        assert(bs.drop_last() =~= seq![bs[0]]);
        assert(bs.skip(1) =~= seq![bs[1]]);
        assert(join_blocks(bs.drop_last()) == bs[0]);
        assert(join_blocks(bs.skip(1)) == bs[1]);
    } else {
        lemma_join_blocks_front(bs.drop_last());
        assert(bs.drop_last().skip(1) =~= bs.skip(1).drop_last());
        assert(bs.skip(1).last() == bs.last());
        let a = bs[0] + ",\n"@;
        let m = join_blocks(bs.skip(1).drop_last());
        assert(join_blocks(bs.skip(1)) == m + ",\n"@ + bs.last());
        assert(join_blocks(bs) == (a + m) + ",\n"@ + bs.last());
        assert((a + m) + ",\n"@ + bs.last() =~= a + (m + ",\n"@ + bs.last()));
    }
}

/// The text of a stored task between its opening and closing braces.
#[verifier::opaque]
pub open spec fn part_body(r: RecordView) -> Seq<char> {
    "\n            \"id\": "@ + decimal(r.id as nat) + json_keys()[1] + r.desc + json_keys()[2]
        + status_key(r.status) + json_keys()[3] + r.created_at + json_keys()[4] + r.updated_at
        + "\"\n        "@
}

proof fn lemma_block_plain(r: RecordView)
    requires
        plain_record(r),
    ensures
        record_block(r) == "        {"@ + part_body(r) + "}"@,
{
    reveal(part_body);
    lemma_indent_plain(r.desc);
    lemma_indent_plain(r.created_at);
    lemma_indent_plain(r.updated_at);
    reveal_strlit("        {\n            \"id\": ");
    reveal_strlit("        {");
    reveal_strlit("\n            \"id\": ");
    reveal_strlit("\"\n        }");
    reveal_strlit("\"\n        ");
    reveal_strlit("}");
    assert("        {\n            \"id\": "@ =~= "        {"@ + "\n            \"id\": "@);
    assert("\"\n        }"@ =~= "\"\n        "@ + "}"@);
    let d = decimal(r.id as nat);
    let k = json_keys();
    assert(record_block(r) =~= "        {"@ + part_body(r) + "}"@);
}

/// Whether `c` is absent from `s` between positions `i` and `j`.
pub open spec fn char_free(s: Seq<char>, c: char, i: int, j: int) -> bool
    decreases j - i,
{
    i >= j || (s[i] != c && char_free(s, c, i + 1, j))
}

proof fn lemma_char_free(s: Seq<char>, c: char, i: int, j: int)
    requires
        char_free(s, c, i, j),
    ensures
        forall|x: int| i <= x < j ==> #[trigger] s[x] != c,
    decreases j - i,
{
    if i < j {
        lemma_char_free(s, c, i + 1, j);
    }
}

/// Reveals the texts of the file format's fixed pieces.
proof fn reveal_format_pieces()
    ensures
        json_keys()[0] == seq!['"', 'i', 'd', '"', ':', ' '],
        json_keys()[1].len() == 23,
        json_keys()[2].len() == 26,
        json_keys()[3].len() == 30,
        json_keys()[4].len() == 30,
        json_keys()[5] == seq!['"'],
        "\n            \"id\": "@.len() == 19,
        "\"\n        "@.len() == 10,
        "        {"@.len() == 9,
        "}\n    "@.len() == 6,
        task_separator().len() == 12,
{
    reveal_strlit("\"id\": ");
    reveal_strlit(",\n            \"desc\": \"");
    reveal_strlit("\",\n            \"status\": \"");
    reveal_strlit("\",\n            \"created_at\": \"");
    reveal_strlit("\",\n            \"updated_at\": \"");
    reveal_strlit("\"");
    reveal_strlit("\n            \"id\": ");
    reveal_strlit("\"\n        ");
    reveal_strlit("        {");
    reveal_strlit("}\n    ");
    reveal_strlit("},\n        {");
    assert(json_keys()[0] =~= seq!['"', 'i', 'd', '"', ':', ' ']);
    assert(json_keys()[5] =~= seq!['"']);
}

/// Where the pieces of a stored task stand in its text.
#[verifier::spinoff_prover]
#[verifier::rlimit(50)]
proof fn lemma_part_layout(r: RecordView, pre: Seq<char>, post: Seq<char>)
    requires
        plain_record(r),
        pre == Seq::<char>::empty() || pre == "        {"@,
        post == Seq::<char>::empty() || post == "}\n    "@,
    ensures
        ({
            let t = pre + part_body(r) + post;
            let k = json_keys();
            let o_h = pre.len() as int;
            let o_k1 = o_h + 19 + decimal(r.id as nat).len();
            let o_k2 = o_k1 + 23 + r.desc.len();
            let o_k3 = o_k2 + 26 + status_key(r.status).len();
            let o_k4 = o_k3 + 30 + r.created_at.len();
            let o_e = o_k4 + 30 + r.updated_at.len();
            &&& t.len() == o_e + 10 + post.len()
            &&& matches_at(t, "\n            \"id\": "@, o_h)
            &&& matches_at(t, k[1], o_k1)
            &&& matches_at(t, k[2], o_k2)
            &&& matches_at(t, k[3], o_k3)
            &&& matches_at(t, k[4], o_k4)
            &&& matches_at(t, "\"\n        "@, o_e)
            &&& matches_at(t, post, o_e + 10)
            &&& t.subrange(0, o_h) == pre
            &&& t.subrange(o_h + 19, o_k1) == decimal(r.id as nat)
            &&& t.subrange(o_k1 + 23, o_k2) == r.desc
            &&& t.subrange(o_k2 + 26, o_k3) == status_key(r.status)
            &&& t.subrange(o_k3 + 30, o_k4) == r.created_at
            &&& t.subrange(o_k4 + 30, o_e) == r.updated_at
        }),
{
    reveal_format_pieces();
    let t = pre + part_body(r) + post;
    let k = json_keys();
    let h = "\n            \"id\": "@;
    let e = "\"\n        "@;
    let d = decimal(r.id as nat);
    let key = status_key(r.status);
    let o_h = pre.len() as int;
    let o_k1 = o_h + 19 + d.len();
    let o_k2 = o_k1 + 23 + r.desc.len();
    let o_k3 = o_k2 + 26 + key.len();
    let o_k4 = o_k3 + 30 + r.created_at.len();
    let o_e = o_k4 + 30 + r.updated_at.len();
    let body = part_body(r);
    reveal(part_body);
    assert(body =~= h + d + k[1] + r.desc + k[2] + key + k[3] + r.created_at + k[4] + r.updated_at + e);
    assert(t.subrange(0, o_h) =~= pre);
    assert(t.subrange(o_h, o_h + 19) =~= h);
    assert(t.subrange(o_h + 19, o_k1) =~= d);
    assert(t.subrange(o_k1, o_k1 + 23) =~= k[1]);
    assert(t.subrange(o_k1 + 23, o_k2) =~= r.desc);
    assert(t.subrange(o_k2, o_k2 + 26) =~= k[2]);
    assert(t.subrange(o_k2 + 26, o_k3) =~= key);
    assert(t.subrange(o_k3, o_k3 + 30) =~= k[3]);
    assert(t.subrange(o_k3 + 30, o_k4) =~= r.created_at);
    assert(t.subrange(o_k4, o_k4 + 30) =~= k[4]);
    assert(t.subrange(o_k4 + 30, o_e) =~= r.updated_at);
    assert(t.subrange(o_e, o_e + 10) =~= e);
    assert(t.subrange(o_e + 10, o_e + 10 + post.len()) =~= post);
}

/// Where line breaks, quotes and commas stand in the fixed pieces of a stored task.
proof fn lemma_piece_chars()
    ensures
        ({
            let h = "\n            \"id\": "@;
            let k = json_keys();
            let e = "\"\n        "@;
            let open = "        {"@;
            let close = "}\n    "@;
            let sep = task_separator();
            &&& h[0] == '\n' && h[13] == '"'
            &&& h.subrange(13, 19) == k[0]
            &&& forall|x: int| 1 <= x < 19 ==> #[trigger] h[x] != '\n'
            &&& forall|x: int| 0 <= x < 13 ==> #[trigger] h[x] != '"'
            &&& forall|x: int| 0 <= x < 19 ==> #[trigger] h[x] != ','
            &&& k[1][0] == ',' && k[1][1] == '\n' && k[1][14] == '"' && k[1][15] == 'd'
            &&& forall|x: int| 2 <= x < 23 ==> #[trigger] k[1][x] != '\n'
            &&& k[2][0] == '"' && k[2][1] == ',' && k[2][2] == '\n' && k[2][15] == '"'
                && k[2][16] == 's'
            &&& forall|x: int| 3 <= x < 26 ==> #[trigger] k[2][x] != '\n'
            &&& k[3][0] == '"' && k[3][1] == ',' && k[3][2] == '\n' && k[3][15] == '"'
                && k[3][16] == 'c'
            &&& forall|x: int| 3 <= x < 30 ==> #[trigger] k[3][x] != '\n'
            &&& k[4][0] == '"' && k[4][1] == ',' && k[4][2] == '\n' && k[4][15] == '"'
                && k[4][16] == 'u'
            &&& forall|x: int| 3 <= x < 30 ==> #[trigger] k[4][x] != '\n'
            &&& e[0] == '"' && e[1] == '\n' && e[9] == ' '
            &&& forall|x: int| 2 <= x < 10 ==> #[trigger] e[x] != '\n'
            &&& forall|x: int| 1 <= x < 10 ==> #[trigger] e[x] != '"'
            &&& open[0] == ' ' && open[7] == ' ' && open[8] == '{'
            &&& forall|x: int| 0 <= x < 9 ==> #[trigger] open[x] != '\n' && open[x] != '"'
                && open[x] != ','
            &&& close[0] == '}' && close[1] == '\n' && close[5] == ' '
            &&& forall|x: int| 2 <= x < 6 ==> #[trigger] close[x] != '\n'
            &&& forall|x: int| 0 <= x < 6 ==> #[trigger] close[x] != '"'
            &&& sep[0] == '}' && sep[1] == ',' && sep[2] == '\n'
        }),
{
    reveal_format_pieces();
    reveal_strlit("\n            \"id\": ");
    reveal_strlit(",\n            \"desc\": \"");
    reveal_strlit("\",\n            \"status\": \"");
    reveal_strlit("\",\n            \"created_at\": \"");
    reveal_strlit("\",\n            \"updated_at\": \"");
    reveal_strlit("\"\n        ");
    reveal_strlit("        {");
    reveal_strlit("}\n    ");
    reveal_strlit("},\n        {");
    reveal_with_fuel(char_free, 31);
    let h = "\n            \"id\": "@;
    let k = json_keys();
    let e = "\"\n        "@;
    let open = "        {"@;
    let close = "}\n    "@;
    reveal_strlit("\"id\": ");
    assert(h.subrange(13, 19) =~= k[0]);
    assert(char_free(h, '\n', 1, 19));
    lemma_char_free(h, '\n', 1, 19);
    assert(char_free(h, '"', 0, 13));
    lemma_char_free(h, '"', 0, 13);
    assert(char_free(h, ',', 0, 19));
    lemma_char_free(h, ',', 0, 19);
    assert(char_free(k[1], '\n', 2, 23));
    lemma_char_free(k[1], '\n', 2, 23);
    assert(char_free(k[2], '\n', 3, 26));
    lemma_char_free(k[2], '\n', 3, 26);
    assert(char_free(k[3], '\n', 3, 30));
    lemma_char_free(k[3], '\n', 3, 30);
    assert(char_free(k[4], '\n', 3, 30));
    lemma_char_free(k[4], '\n', 3, 30);
    assert(char_free(e, '\n', 2, 10));
    lemma_char_free(e, '\n', 2, 10);
    assert(char_free(e, '"', 1, 10));
    lemma_char_free(e, '"', 1, 10);
    assert(char_free(open, '\n', 0, 9));
    lemma_char_free(open, '\n', 0, 9);
    assert(char_free(open, '"', 0, 9));
    lemma_char_free(open, '"', 0, 9);
    assert(char_free(open, ',', 0, 9));
    lemma_char_free(open, ',', 0, 9);
    assert(char_free(close, '\n', 2, 6));
    lemma_char_free(close, '\n', 2, 6);
    assert(char_free(close, '"', 0, 6));
    lemma_char_free(close, '"', 0, 6);
}

/// Where the line breaks of the fixed pieces of a stored task stand.
proof fn lemma_piece_newlines()
    ensures
        ({
            let h = "\n            \"id\": "@;
            let k = json_keys();
            let e = "\"\n        "@;
            let open = "        {"@;
            let close = "}\n    "@;
            &&& forall|x: int| 0 <= x < 19 ==> (#[trigger] h[x] == '\n' <==> x == 0)
            &&& forall|x: int| 0 <= x < 23 ==> (#[trigger] k[1][x] == '\n' <==> x == 1)
            &&& forall|x: int| 0 <= x < 26 ==> (#[trigger] k[2][x] == '\n' <==> x == 2)
            &&& forall|x: int| 0 <= x < 30 ==> (#[trigger] k[3][x] == '\n' <==> x == 2)
            &&& forall|x: int| 0 <= x < 30 ==> (#[trigger] k[4][x] == '\n' <==> x == 2)
            &&& forall|x: int| 0 <= x < 10 ==> (#[trigger] e[x] == '\n' <==> x == 1)
            &&& forall|x: int| 0 <= x < 9 ==> #[trigger] open[x] != '\n'
            &&& forall|x: int| 0 <= x < 6 ==> (#[trigger] close[x] == '\n' <==> x == 1)
        }),
{
    lemma_piece_chars();
    reveal_strlit(",\n            \"desc\": \"");
    reveal_strlit("\",\n            \"status\": \"");
    reveal_strlit("\",\n            \"created_at\": \"");
    reveal_strlit("\",\n            \"updated_at\": \"");
    reveal_strlit("\"\n        ");
    reveal_strlit("}\n    ");
}

/// The key of a status holds letters and dashes only.
proof fn lemma_key_chars(st: Status)
    ensures
        forall|x: int|
            0 <= x < status_key(st).len() ==> #[trigger] status_key(st)[x] != '\n'
                && status_key(st)[x] != '"' && status_key(st)[x] != ',',
{
    reveal_strlit("todo");
    reveal_strlit("done");
    reveal_strlit("in-progress");
    reveal_with_fuel(char_free, 12);
    let key = status_key(st);
    assert(char_free(key, '\n', 0, key.len() as int));
    assert(char_free(key, '"', 0, key.len() as int));
    assert(char_free(key, ',', 0, key.len() as int));
    lemma_char_free(key, '\n', 0, key.len() as int);
    lemma_char_free(key, '"', 0, key.len() as int);
    lemma_char_free(key, ',', 0, key.len() as int);
}

proof fn lemma_sub_char(t: Seq<char>, a: int, b: int, x: int)
    requires
        0 <= a <= x < b <= t.len(),
    ensures
        t.subrange(a, b)[x - a] == t[x],
{
}

/// Where the line breaks of a stored task stand.
#[verifier::spinoff_prover]
#[verifier::rlimit(50)]
proof fn lemma_part_newlines(r: RecordView, pre: Seq<char>, post: Seq<char>)
    requires
        plain_record(r),
        pre == Seq::<char>::empty() || pre == "        {"@,
        post == Seq::<char>::empty() || post == "}\n    "@,
    ensures
        ({
            let t = pre + part_body(r) + post;
            let o_h = pre.len() as int;
            let o_k1 = o_h + 19 + decimal(r.id as nat).len();
            let o_k2 = o_k1 + 23 + r.desc.len();
            let o_k3 = o_k2 + 26 + status_key(r.status).len();
            let o_k4 = o_k3 + 30 + r.created_at.len();
            let o_e = o_k4 + 30 + r.updated_at.len();
            forall|x: int|
                0 <= x < t.len() && #[trigger] t[x] == '\n' ==> x == o_h || x == o_k1 + 1 || x
                    == o_k2 + 2 || x == o_k3 + 2 || x == o_k4 + 2 || x == o_e + 1 || x == o_e + 11
        }),
{
    lemma_part_layout(r, pre, post);
    lemma_piece_newlines();
    lemma_decimal_digits(r.id as nat);
    lemma_key_chars(r.status);
    reveal_format_pieces();
    let t = pre + part_body(r) + post;
    let k = json_keys();
    let h = "\n            \"id\": "@;
    let e = "\"\n        "@;
    let d = decimal(r.id as nat);
    let key = status_key(r.status);
    let o_h = pre.len() as int;
    let o_k1 = o_h + 19 + d.len();
    let o_k2 = o_k1 + 23 + r.desc.len();
    let o_k3 = o_k2 + 26 + key.len();
    let o_k4 = o_k3 + 30 + r.created_at.len();
    let o_e = o_k4 + 30 + r.updated_at.len();
    assert forall|x: int| 0 <= x < t.len() && #[trigger] t[x] == '\n' implies x == o_h || x == o_k1
        + 1 || x == o_k2 + 2 || x == o_k3 + 2 || x == o_k4 + 2 || x == o_e + 1 || x == o_e + 11 by {
        if x < o_h {
            lemma_sub_char(t, 0, o_h, x);
        } else if x < o_h + 19 {
            lemma_sub_char(t, o_h, o_h + 19, x);
        } else if x < o_k1 {
            lemma_sub_char(t, o_h + 19, o_k1, x);
            assert(is_digit(d[x - o_h - 19]));
        } else if x < o_k1 + 23 {
            lemma_sub_char(t, o_k1, o_k1 + 23, x);
        } else if x < o_k2 {
            lemma_sub_char(t, o_k1 + 23, o_k2, x);
            assert(r.desc[x - o_k1 - 23] != '\n');
        } else if x < o_k2 + 26 {
            lemma_sub_char(t, o_k2, o_k2 + 26, x);
        } else if x < o_k3 {
            lemma_sub_char(t, o_k2 + 26, o_k3, x);
        } else if x < o_k3 + 30 {
            lemma_sub_char(t, o_k3, o_k3 + 30, x);
        } else if x < o_k4 {
            lemma_sub_char(t, o_k3 + 30, o_k4, x);
            assert(r.created_at[x - o_k3 - 30] != '\n');
        } else if x < o_k4 + 30 {
            lemma_sub_char(t, o_k4, o_k4 + 30, x);
        } else if x < o_e {
            lemma_sub_char(t, o_k4 + 30, o_e, x);
            assert(r.updated_at[x - o_k4 - 30] != '\n');
        } else if x < o_e + 10 {
            lemma_sub_char(t, o_e, o_e + 10, x);
        } else {
            lemma_sub_char(t, o_e + 10, o_e + 10 + post.len(), x);
        }
    }
}

/// The positions in a stored task of its id key, of the four keys that follow the id,
/// and of the quote that closes the last value.
pub open spec fn part_offsets(r: RecordView, pre: Seq<char>) -> (int, int, int, int, int, int) {
    let o_h = pre.len() as int;
    let o_k1 = o_h + 19 + decimal(r.id as nat).len();
    let o_k2 = o_k1 + 23 + r.desc.len();
    let o_k3 = o_k2 + 26 + status_key(r.status).len();
    let o_k4 = o_k3 + 30 + r.created_at.len();
    let o_e = o_k4 + 30 + r.updated_at.len();
    (o_h, o_k1, o_k2, o_k3, o_k4, o_e)
}

#[verifier::spinoff_prover]
proof fn lemma_find_id_key(r: RecordView, pre: Seq<char>, post: Seq<char>)
    requires
        plain_record(r),
        pre == Seq::<char>::empty() || pre == "        {"@,
        post == Seq::<char>::empty() || post == "}\n    "@,
    ensures
        find_first(pre + part_body(r) + post, json_keys()[0]) == Some(pre.len() + 13int),
{
    lemma_part_layout(r, pre, post);
    lemma_piece_chars();
    reveal_format_pieces();
    let t = pre + part_body(r) + post;
    let k = json_keys();
    let (o_h, o_k1, o_k2, o_k3, o_k4, o_e) = part_offsets(r, pre);
    let h = "\n            \"id\": "@;
    assert(t.subrange(o_h + 13, o_h + 19) =~= t.subrange(o_h, o_h + 19).subrange(13, 19));
    assert forall|x: int| 0 <= x < o_h + 13 implies !matches_at(t, k[0], x) by {
        if matches_at(t, k[0], x) {
            lemma_match_char(t, k[0], x, 0);
            if x < o_h {
                lemma_sub_char(t, 0, o_h, x);
            } else {
                lemma_sub_char(t, o_h, o_h + 19, x);
            }
        }
    }
    lemma_find_first_at(t, k[0], o_h + 13);
}

#[verifier::spinoff_prover]
proof fn lemma_find_first_desc_key(r: RecordView, pre: Seq<char>, post: Seq<char>)
    requires
        plain_record(r),
        pre == Seq::<char>::empty() || pre == "        {"@,
        post == Seq::<char>::empty() || post == "}\n    "@,
    ensures
        find_first(pre + part_body(r) + post, json_keys()[1]) == Some(part_offsets(r, pre).1),
{
    lemma_part_layout(r, pre, post);
    lemma_part_newlines(r, pre, post);
    lemma_piece_chars();
    reveal_format_pieces();
    let t = pre + part_body(r) + post;
    let k = json_keys();
    let (o_h, o_k1, o_k2, o_k3, o_k4, o_e) = part_offsets(r, pre);
    lemma_decimal_digits(r.id as nat);
    let d = decimal(r.id as nat);
    assert forall|x: int| 0 <= x < o_k1 implies !matches_at(t, k[1], x) by {
        if matches_at(t, k[1], x) {
            lemma_match_char(t, k[1], x, 0);
            if x < o_h {
                lemma_sub_char(t, 0, o_h, x);
            } else if x < o_h + 19 {
                lemma_sub_char(t, o_h, o_h + 19, x);
            } else {
                lemma_sub_char(t, o_h + 19, o_k1, x);
                assert(is_digit(d[x - o_h - 19]));
            }
        }
    }
    lemma_find_first_at(t, k[1], o_k1);
}

/// A key that follows a line break (the keys after the id, and the separator between
/// tasks) matches in a stored task only where such a line break stands.
#[verifier::spinoff_prover]
proof fn lemma_keyed_newline(r: RecordView, pre: Seq<char>, post: Seq<char>, pat: Seq<char>, q: int, x: int)
    requires
        plain_record(r),
        pre == Seq::<char>::empty() || pre == "        {"@,
        post == Seq::<char>::empty() || post == "}\n    "@,
        matches_at(pre + part_body(r) + post, pat, x),
        0 <= q < pat.len(),
        pat[q] == '\n',
    ensures
        ({
            let (o_h, o_k1, o_k2, o_k3, o_k4, o_e) = part_offsets(r, pre);
            let y = x + q;
            y == o_h || y == o_k1 + 1 || y == o_k2 + 2 || y == o_k3 + 2 || y == o_k4 + 2 || y == o_e + 1
                || y == o_e + 11
        }),
{
    lemma_part_newlines(r, pre, post);
    lemma_match_char(pre + part_body(r) + post, pat, x, q);
}

/// The chars that stand at the given offsets after each line break of a stored task.
#[verifier::spinoff_prover]
#[verifier::rlimit(40)]
proof fn lemma_after_newlines(r: RecordView, pre: Seq<char>, post: Seq<char>)
    requires
        plain_record(r),
        pre == Seq::<char>::empty() || pre == "        {"@,
        post == Seq::<char>::empty() || post == "}\n    "@,
    ensures
        ({
            let t = pre + part_body(r) + post;
            let (o_h, o_k1, o_k2, o_k3, o_k4, o_e) = part_offsets(r, pre);
            &&& t[o_k1] == ',' && t[o_k1 + 1] == '\n'
            &&& t[o_k2] == '"' && t[o_k2 + 1] == ',' && t[o_k2 + 16] == 's'
            &&& t[o_k3] == '"' && t[o_k3 + 1] == ',' && t[o_k3 + 16] == 'c'
            &&& t[o_k4] == '"' && t[o_k4 + 1] == ',' && t[o_k4 + 16] == 'u'
            &&& t[o_e] == '"' && t[o_e + 1] == '\n'
            &&& t.len() > o_e + 10 ==> t[o_e + 10] == '}' && t[o_e + 11] == '\n'
            &&& pre.len() > 0 ==> t[o_h - 2] == ' '
        }),
{
    lemma_part_layout(r, pre, post);
    lemma_piece_chars();
    reveal_format_pieces();
    let t = pre + part_body(r) + post;
    let k = json_keys();
    let (o_h, o_k1, o_k2, o_k3, o_k4, o_e) = part_offsets(r, pre);
    lemma_match_char(t, k[1], o_k1, 0);
    lemma_match_char(t, k[1], o_k1, 1);
    lemma_match_char(t, k[2], o_k2, 0);
    lemma_match_char(t, k[2], o_k2, 1);
    lemma_match_char(t, k[2], o_k2, 16);
    lemma_match_char(t, k[3], o_k3, 0);
    lemma_match_char(t, k[3], o_k3, 1);
    lemma_match_char(t, k[3], o_k3, 16);
    lemma_match_char(t, k[4], o_k4, 0);
    lemma_match_char(t, k[4], o_k4, 1);
    lemma_match_char(t, k[4], o_k4, 16);
    lemma_match_char(t, "\"\n        "@, o_e, 0);
    lemma_match_char(t, "\"\n        "@, o_e, 1);
    if t.len() > o_e + 10 {
        lemma_match_char(t, post, o_e + 10, 0);
        lemma_match_char(t, post, o_e + 10, 1);
    }
    if pre.len() > 0 {
        lemma_sub_char(t, 0, o_h, o_h - 2);
    }
}

/// The characters of the keys that the searches compare.
proof fn lemma_key_letters()
    ensures
        ({
            let k = json_keys();
            &&& k[1].len() == 23 && k[2].len() == 26 && k[3].len() == 30 && k[4].len() == 30
            &&& k[1][0] == ',' && k[1][1] == '\n' && k[1][15] == 'd'
            &&& k[2][0] == '"' && k[2][1] == ',' && k[2][2] == '\n' && k[2][16] == 's'
            &&& k[3][0] == '"' && k[3][1] == ',' && k[3][2] == '\n' && k[3][16] == 'c'
            &&& k[4][0] == '"' && k[4][1] == ',' && k[4][2] == '\n' && k[4][16] == 'u'
        }),
{
    reveal_strlit(",\n            \"desc\": \"");
    reveal_strlit("\",\n            \"status\": \"");
    reveal_strlit("\",\n            \"created_at\": \"");
    reveal_strlit("\",\n            \"updated_at\": \"");
}

/// Where the keys after the id stand in a stored task.
#[verifier::spinoff_prover]
proof fn lemma_key_positions(r: RecordView, pre: Seq<char>, post: Seq<char>)
    requires
        plain_record(r),
        pre == Seq::<char>::empty() || pre == "        {"@,
        post == Seq::<char>::empty() || post == "}\n    "@,
    ensures
        ({
            let t = pre + part_body(r) + post;
            let k = json_keys();
            let (o_h, o_k1, o_k2, o_k3, o_k4, o_e) = part_offsets(r, pre);
            &&& matches_at(t, k[1], o_k1)
            &&& matches_at(t, k[2], o_k2)
            &&& matches_at(t, k[3], o_k3)
            &&& matches_at(t, k[4], o_k4)
        }),
{
    lemma_part_layout(r, pre, post);
}

/// The id is a nonempty run of digits, so no quote stands just before the description key.
#[verifier::spinoff_prover]
proof fn lemma_id_digits(r: RecordView, pre: Seq<char>, post: Seq<char>)
    requires
        plain_record(r),
        pre == Seq::<char>::empty() || pre == "        {"@,
        post == Seq::<char>::empty() || post == "}\n    "@,
    ensures
        ({
            let t = pre + part_body(r) + post;
            let (o_h, o_k1, o_k2, o_k3, o_k4, o_e) = part_offsets(r, pre);
            o_k1 - 1 >= o_h + 19 && t[o_k1 - 1] != '"' && t[o_k1 - 1] != '}'
        }),
{
    lemma_part_layout(r, pre, post);
    let t = pre + part_body(r) + post;
    let (o_h, o_k1, o_k2, o_k3, o_k4, o_e) = part_offsets(r, pre);
    lemma_decimal_digits(r.id as nat);
    lemma_sub_char(t, o_h + 19, o_k1, o_k1 - 1);
    assert(is_digit(decimal(r.id as nat)[o_k1 - 1 - (o_h + 19)]));
}

/// The position in a stored task of key `n`, one of the four keys after the id.
pub open spec fn key_offset(r: RecordView, pre: Seq<char>, n: int) -> int {
    let (o_h, o_k1, o_k2, o_k3, o_k4, o_e) = part_offsets(r, pre);
    if n == 1 {
        o_k1
    } else if n == 2 {
        o_k2
    } else if n == 3 {
        o_k3
    } else {
        o_k4
    }
}

/// No occurrence of a key after the id starts after its place in a stored task.
#[verifier::spinoff_prover]
proof fn lemma_no_later_key(r: RecordView, pre: Seq<char>, post: Seq<char>, n: int, x: int)
    requires
        plain_record(r),
        pre == Seq::<char>::empty() || pre == "        {"@,
        post == Seq::<char>::empty() || post == "}\n    "@,
        1 <= n <= 4,
        key_offset(r, pre, n) < x,
    ensures
        !matches_at(pre + part_body(r) + post, json_keys()[n], x),
{
    if matches_at(pre + part_body(r) + post, json_keys()[n], x) {
        lemma_after_newlines(r, pre, post);
        lemma_key_letters();
        let t = pre + part_body(r) + post;
        let k = json_keys();
        if n == 1 {
            lemma_keyed_newline(r, pre, post, k[1], 1, x);
            lemma_match_char(t, k[1], x, 0);
            lemma_match_char(t, k[1], x, 15);
        } else {
            lemma_keyed_newline(r, pre, post, k[n], 2, x);
            lemma_match_char(t, k[n], x, 1);
            lemma_match_char(t, k[n], x, 16);
        }
    }
}

/// No occurrence of a key after the description starts before its place in a stored task.
#[verifier::spinoff_prover]
proof fn lemma_no_earlier_key(r: RecordView, pre: Seq<char>, post: Seq<char>, n: int, x: int)
    requires
        plain_record(r),
        pre == Seq::<char>::empty() || pre == "        {"@,
        post == Seq::<char>::empty() || post == "}\n    "@,
        2 <= n <= 4,
        x < key_offset(r, pre, n),
    ensures
        !matches_at(pre + part_body(r) + post, json_keys()[n], x),
{
    if matches_at(pre + part_body(r) + post, json_keys()[n], x) {
        lemma_after_newlines(r, pre, post);
        lemma_id_digits(r, pre, post);
        lemma_key_letters();
        let t = pre + part_body(r) + post;
        let k = json_keys();
        lemma_keyed_newline(r, pre, post, k[n], 2, x);
        lemma_match_char(t, k[n], x, 0);
        lemma_match_char(t, k[n], x, 16);
    }
}

/// The last occurrence of a key after the id is its place in a stored task.
#[verifier::spinoff_prover]
proof fn lemma_find_last_key(r: RecordView, pre: Seq<char>, post: Seq<char>, n: int)
    requires
        plain_record(r),
        pre == Seq::<char>::empty() || pre == "        {"@,
        post == Seq::<char>::empty() || post == "}\n    "@,
        1 <= n <= 4,
    ensures
        find_last(pre + part_body(r) + post, json_keys()[n]) == Some(key_offset(r, pre, n)),
{
    lemma_key_positions(r, pre, post);
    let t = pre + part_body(r) + post;
    let k = json_keys();
    let o = key_offset(r, pre, n);
    assert forall|x: int| o < x implies !matches_at(t, k[n], x) by {
        lemma_no_later_key(r, pre, post, n, x);
    }
    lemma_find_last_at(t, k[n], o);
}

/// The first occurrence of a key after the description is its place in a stored task.
#[verifier::spinoff_prover]
proof fn lemma_find_first_key(r: RecordView, pre: Seq<char>, post: Seq<char>, n: int)
    requires
        plain_record(r),
        pre == Seq::<char>::empty() || pre == "        {"@,
        post == Seq::<char>::empty() || post == "}\n    "@,
        2 <= n <= 4,
    ensures
        find_first(pre + part_body(r) + post, json_keys()[n]) == Some(key_offset(r, pre, n)),
{
    lemma_key_positions(r, pre, post);
    let t = pre + part_body(r) + post;
    let k = json_keys();
    let o = key_offset(r, pre, n);
    assert forall|x: int| 0 <= x < o implies !matches_at(t, k[n], x) by {
        lemma_no_earlier_key(r, pre, post, n, x);
    }
    lemma_find_first_at(t, k[n], o);
}

#[verifier::spinoff_prover]
proof fn lemma_find_last_quote(r: RecordView, pre: Seq<char>, post: Seq<char>)
    requires
        plain_record(r),
        pre == Seq::<char>::empty() || pre == "        {"@,
        post == Seq::<char>::empty() || post == "}\n    "@,
    ensures
        find_last(pre + part_body(r) + post, json_keys()[5]) == Some(part_offsets(r, pre).5),
{
    lemma_part_layout(r, pre, post);
    lemma_piece_chars();
    reveal_format_pieces();
    let t = pre + part_body(r) + post;
    let k = json_keys();
    let (o_h, o_k1, o_k2, o_k3, o_k4, o_e) = part_offsets(r, pre);
    let e = "\"\n        "@;
    lemma_match_char(t, e, o_e, 0);
    assert(t.subrange(o_e, o_e + 1) =~= k[5]);
    assert forall|x: int| o_e < x implies !matches_at(t, k[5], x) by {
        if matches_at(t, k[5], x) {
            lemma_match_char(t, k[5], x, 0);
            if x < o_e + 10 {
                lemma_sub_char(t, o_e, o_e + 10, x);
            } else {
                lemma_sub_char(t, o_e + 10, o_e + 10 + post.len(), x);
            }
        }
    }
    lemma_find_last_at(t, k[5], o_e);
}

/// Reading the text of a stored task gives back its record, when its texts are plain.
#[verifier::spinoff_prover]
proof fn lemma_part_outcome(r: RecordView, pre: Seq<char>, post: Seq<char>)
    requires
        plain_record(r),
        pre == Seq::<char>::empty() || pre == "        {"@,
        post == Seq::<char>::empty() || post == "}\n    "@,
    ensures
        part_outcome(pre + part_body(r) + post) == PartOutcome::Record(r),
{
    lemma_part_layout(r, pre, post);
    lemma_find_id_key(r, pre, post);
    lemma_find_first_desc_key(r, pre, post);
    lemma_find_last_key(r, pre, post, 1);
    lemma_find_first_key(r, pre, post, 2);
    lemma_find_last_key(r, pre, post, 2);
    lemma_find_first_key(r, pre, post, 3);
    lemma_find_last_key(r, pre, post, 3);
    lemma_find_first_key(r, pre, post, 4);
    lemma_find_last_key(r, pre, post, 4);
    lemma_find_last_quote(r, pre, post);
    reveal_format_pieces();
    lemma_parse_decimal(r.id);
    lemma_status_key_roundtrip(r.status);
    let t = pre + part_body(r) + post;
    let k = json_keys();
    let (o_h, o_k1, o_k2, o_k3, o_k4, o_e) = part_offsets(r, pre);
    assert(field_between(t, k[0], k[1]) == Field::Found(decimal(r.id as nat)));
    assert(field_between(t, k[1], k[2]) == Field::Found(r.desc));
    assert(field_between(t, k[2], k[3]) == Field::Found(status_key(r.status)));
    assert(field_between(t, k[3], k[4]) == Field::Found(r.created_at));
    assert(field_between(t, k[4], k[5]) == Field::Found(r.updated_at));
    assert(fields_from(t, k, 5) == Fields::Values(Seq::<Seq<char>>::empty()));
    let vs = seq![decimal(r.id as nat), r.desc, status_key(r.status), r.created_at, r.updated_at];
    assert(seq![r.updated_at] + Seq::<Seq<char>>::empty() =~= vs.skip(4));
    assert(fields_from(t, k, 4) == Fields::Values(vs.skip(4)));
    assert(seq![r.created_at] + vs.skip(4) =~= vs.skip(3));
    assert(fields_from(t, k, 3) == Fields::Values(vs.skip(3)));
    assert(seq![status_key(r.status)] + vs.skip(3) =~= vs.skip(2));
    assert(fields_from(t, k, 2) == Fields::Values(vs.skip(2)));
    assert(seq![r.desc] + vs.skip(2) =~= vs.skip(1));
    assert(fields_from(t, k, 1) == Fields::Values(vs.skip(1)));
    assert(seq![decimal(r.id as nat)] + vs.skip(1) =~= vs);
    assert(fields_from(t, k, 0) == Fields::Values(vs));
}

/// A stored task neither starts nor ends with a brace, so trimming braces keeps it whole.
#[verifier::spinoff_prover]
proof fn lemma_part_trim(r: RecordView, pre: Seq<char>, post: Seq<char>)
    requires
        plain_record(r),
        pre == Seq::<char>::empty() || pre == "        {"@,
        post == Seq::<char>::empty() || post == "}\n    "@,
    ensures
        trim_pair(pre + part_body(r) + post, '{', '}') == pre + part_body(r) + post,
{
    lemma_part_layout(r, pre, post);
    lemma_piece_chars();
    reveal_format_pieces();
    let t = pre + part_body(r) + post;
    let (o_h, o_k1, o_k2, o_k3, o_k4, o_e) = part_offsets(r, pre);
    let e = "\"\n        "@;
    if pre.len() > 0 {
        lemma_sub_char(t, 0, o_h, 0);
    } else {
        lemma_match_char(t, "\n            \"id\": "@, o_h, 0);
    }
    if post.len() > 0 {
        lemma_match_char(t, post, o_e + 10, 5);
    } else {
        lemma_match_char(t, e, o_e, 9);
    }
    assert(t.len() > 0);
    assert(t[0] != '{' && t[0] != '}');
    assert(t.last() != '{' && t.last() != '}');
    assert(trim_front_pair(t, '{', '}') == t);
    assert(trim_back_pair(t, '{', '}') == t);
}

/// No separator between tasks starts inside a stored task, whatever follows the task,
/// as long as that starts with a closing brace and then a comma or a line break.
#[verifier::spinoff_prover]
proof fn lemma_no_separator_inside(r: RecordView, pre: Seq<char>, y: Seq<char>)
    requires
        plain_record(r),
        pre == Seq::<char>::empty() || pre == "        {"@,
        y.len() >= 2,
        y[0] == '}',
        y[1] == ',' || y[1] == '\n',
    ensures
        forall|x: int| 0 <= x < pre.len() + part_body(r).len() ==> !matches_at(
            pre + part_body(r) + y,
            task_separator(),
            x,
        ),
{
    let empty = Seq::<char>::empty();
    lemma_part_layout(r, pre, empty);
    lemma_part_newlines(r, pre, empty);
    lemma_after_newlines(r, pre, empty);
    lemma_id_digits(r, pre, empty);
    lemma_piece_chars();
    reveal_format_pieces();
    let u = pre + part_body(r) + empty;
    assert(u == pre + part_body(r));
    let s = pre + part_body(r) + y;
    let sep = task_separator();
    let l = u.len() as int;
    let (o_h, o_k1, o_k2, o_k3, o_k4, o_e) = part_offsets(r, pre);
    assert(l == o_e + 10);
    assert forall|x: int| 0 <= x < l implies !matches_at(s, sep, x) by {
        if matches_at(s, sep, x) {
            lemma_match_char(s, sep, x, 0);
            lemma_match_char(s, sep, x, 1);
            lemma_match_char(s, sep, x, 2);
            if x + 2 < l {
                assert(s[x + 2] == u[x + 2]);
                assert(s[x] == u[x]);
                assert(s[x + 1] == u[x + 1]);
                assert(u[x + 2] == '\n');
                assert(x + 2 == o_h || x + 2 == o_k1 + 1 || x + 2 == o_k2 + 2 || x + 2 == o_k3 + 2
                    || x + 2 == o_k4 + 2 || x + 2 == o_e + 1);
            } else {
                assert(s[x] == u[x]);
                assert(s[l] == y[0]);
                assert(s[l + 1] == y[1]);
                if x + 1 < l {
                    assert(s[x + 1] == u[x + 1]);
                }
                lemma_match_char(u, "\"\n        "@, o_e, 9);
            }
        }
    }
}

/// The text from the first stored task to the end of the last one, and the closing
/// indentation after it, with `pre` in front.
spec fn stored_tail(rs: Seq<RecordView>, pre: Seq<char>) -> Seq<char>
    decreases rs.len(),
{
    if rs.len() <= 1 {
        pre + part_body(rs[0]) + "}\n    "@
    } else {
        pre + part_body(rs[0]) + task_separator() + stored_tail(rs.skip(1), Seq::empty())
    }
}

/// The pieces that splitting `stored_tail(rs, pre)` at the separators gives.
spec fn stored_parts(rs: Seq<RecordView>, pre: Seq<char>) -> Seq<Seq<char>>
    decreases rs.len(),
{
    if rs.len() <= 1 {
        seq![pre + part_body(rs[0]) + "}\n    "@]
    } else {
        seq![pre + part_body(rs[0])] + stored_parts(rs.skip(1), Seq::empty())
    }
}

/// Whether every record of the list is plain.
pub open spec fn plain_records(rs: Seq<RecordView>) -> bool {
    forall|i: int| 0 <= i < rs.len() ==> plain_record(#[trigger] rs[i])
}

proof fn lemma_file_pieces()
    ensures
        "\n    ]\n}"@ == "\n    "@ + "]\n}"@,
        "}"@ + "\n    "@ == "}\n    "@,
        "}"@ + ",\n"@ + "        {"@ == task_separator(),
        "\n    "@.len() == 5,
        all_whitespace("\n    "@),
        file_head().len() == 17,
        file_tail().len() == 3,
        "]\n}"@ == file_tail(),
{
    reveal_strlit("\n    ]\n}");
    reveal_strlit("\n    ");
    reveal_strlit("]\n}");
    reveal_strlit("}");
    reveal_strlit("\n    ");
    reveal_strlit("}\n    ");
    reveal_strlit(",\n");
    reveal_strlit("        {");
    reveal_strlit("},\n        {");
    reveal_strlit("{\n    \"tasks\": [\n");
    assert("\n    ]\n}"@ =~= "\n    "@ + "]\n}"@);
    assert("}"@ + "\n    "@ =~= "}\n    "@);
    assert("}"@ + ",\n"@ + "        {"@ =~= task_separator());
    let w = "\n    "@;
    assert forall|i: int| 0 <= i < w.len() implies is_whitespace(#[trigger] w[i]) by {
        assert(w[i] == '\n' || w[i] == ' ');
    }
}

#[verifier::spinoff_prover]
proof fn lemma_split_stored(rs: Seq<RecordView>, pre: Seq<char>)
    requires
        rs.len() >= 1,
        plain_records(rs),
        pre == Seq::<char>::empty() || pre == "        {"@,
    ensures
        split_on(stored_tail(rs, pre), task_separator()) == stored_parts(rs, pre),
    decreases rs.len(),
{
    reveal_format_pieces();
    lemma_piece_chars();
    let r = rs[0];
    let sep = task_separator();
    let u = pre + part_body(r);
    let l = u.len() as int;
    assert(plain_record(r));
    if rs.len() == 1 {
        let close = "}\n    "@;
        let t = pre + part_body(r) + close;
        lemma_no_separator_inside(r, pre, close);
        assert forall|x: int| 0 <= x implies !matches_at(t, sep, x) by {
            if x >= l {
                assert(x + 12 > t.len());
            }
        }
        lemma_find_none(t, sep);
    } else {
        let rest = stored_tail(rs.skip(1), Seq::empty());
        let y = sep + rest;
        let t = u + sep + rest;
        assert(t =~= pre + part_body(r) + y);
        assert(y[0] == '}' && y[1] == ',');
        lemma_no_separator_inside(r, pre, y);
        assert(t.subrange(l, l + 12) =~= sep);
        lemma_find_first_at(t, sep, l);
        assert(t.take(l) =~= u);
        assert(t.skip(l + 12) =~= rest);
        assert forall|i: int| 0 <= i < rs.skip(1).len() implies plain_record(#[trigger] rs.skip(1)[i]) by {
            assert(rs.skip(1)[i] == rs[i + 1]);
        }
        lemma_split_stored(rs.skip(1), Seq::empty());
    }
}

#[verifier::spinoff_prover]
proof fn lemma_parts_stored(rs: Seq<RecordView>, pre: Seq<char>)
    requires
        rs.len() >= 1,
        plain_records(rs),
        pre == Seq::<char>::empty() || pre == "        {"@,
    ensures
        parts_outcome(stored_parts(rs, pre)) == ReadOutcome::Parsed(rs),
    decreases rs.len(),
{
    let r = rs[0];
    let parts = stored_parts(rs, pre);
    assert(plain_record(r));
    if rs.len() == 1 {
        let close = "}\n    "@;
        lemma_part_trim(r, pre, close);
        lemma_part_outcome(r, pre, close);
        assert(parts.skip(1) =~= Seq::<Seq<char>>::empty());
        assert(seq![r] + Seq::<RecordView>::empty() =~= rs);
    } else {
        let empty = Seq::<char>::empty();
        lemma_part_trim(r, pre, empty);
        lemma_part_outcome(r, pre, empty);
        assert(pre + part_body(r) + empty =~= pre + part_body(r));
        assert(parts.skip(1) =~= stored_parts(rs.skip(1), empty));
        assert forall|i: int| 0 <= i < rs.skip(1).len() implies plain_record(#[trigger] rs.skip(1)[i]) by {
            assert(rs.skip(1)[i] == rs[i + 1]);
        }
        lemma_parts_stored(rs.skip(1), empty);
        assert(seq![r] + rs.skip(1) =~= rs);
    }
}

proof fn lemma_stored_tail_pre(rs: Seq<RecordView>, pre: Seq<char>)
    requires
        rs.len() >= 1,
    ensures
        stored_tail(rs, pre) == pre + stored_tail(rs, Seq::empty()),
{
    let empty = Seq::<char>::empty();
    if rs.len() == 1 {
        assert(stored_tail(rs, pre) =~= pre + stored_tail(rs, empty));
    } else {
        assert(stored_tail(rs, pre) =~= pre + stored_tail(rs, empty));
    }
}

#[verifier::spinoff_prover]
proof fn lemma_stored_tail_ends(rs: Seq<RecordView>, pre: Seq<char>)
    requires
        rs.len() >= 1,
    ensures
        stored_tail(rs, pre).len() > 0,
        stored_tail(rs, pre).last() == ' ',
    decreases rs.len(),
{
    reveal_strlit("}\n    ");
    if rs.len() > 1 {
        lemma_stored_tail_ends(rs.skip(1), Seq::empty());
    }
}

#[verifier::spinoff_prover]
proof fn lemma_join_stored(rs: Seq<RecordView>)
    requires
        rs.len() >= 1,
        plain_records(rs),
    ensures
        join_blocks(rs.map_values(|r: RecordView| record_block(r))) + "\n    "@ == stored_tail(
            rs,
            "        {"@,
        ),
    decreases rs.len(),
{
    lemma_file_pieces();
    let blocks = rs.map_values(|r: RecordView| record_block(r));
    let open = "        {"@;
    let r = rs[0];
    assert(plain_record(r));
    lemma_block_plain(r);
    assert(blocks[0] == open + part_body(r) + "}"@);
    if rs.len() == 1 {
        assert(join_blocks(blocks) == blocks[0]);
        assert(blocks[0] + "\n    "@ =~= open + part_body(r) + ("}"@ + "\n    "@));
    } else {
        lemma_join_blocks_front(blocks);
        let rest = rs.skip(1);
        assert(blocks.skip(1) =~= rest.map_values(|r: RecordView| record_block(r)));
        assert forall|i: int| 0 <= i < rest.len() implies plain_record(#[trigger] rest[i]) by {
            assert(rest[i] == rs[i + 1]);
        }
        lemma_join_stored(rest);
        lemma_stored_tail_pre(rest, open);
        let tail = stored_tail(rest, Seq::empty());
        let jr = join_blocks(blocks.skip(1));
        assert(jr + "\n    "@ == open + tail);
        assert(join_blocks(blocks) == blocks[0] + ",\n"@ + jr);
        assert(join_blocks(blocks) + "\n    "@ =~= blocks[0] + ",\n"@ + (jr + "\n    "@));
        assert(stored_tail(rs, open) == open + part_body(r) + task_separator() + tail);
        assert(blocks[0] + ",\n"@ + (open + tail) =~= open + part_body(r) + ("}"@ + ",\n"@ + open)
            + tail);
    }
}

/// Reading back the file that writing stored gives the same records, when no description
/// or time text holds a line break.
pub proof fn lemma_read_after_write(rs: Seq<RecordView>)
    requires
        plain_records(rs),
    ensures
        read_outcome(records_json(rs)) == ReadOutcome::Parsed(rs),
{
    lemma_file_pieces();
    reveal_strlit("{\n    \"tasks\": [\n");
    let json = records_json(rs);
    let blocks = rs.map_values(|r: RecordView| record_block(r));
    let j = join_blocks(blocks);
    let head = file_head();
    assert(json =~= head + (j + "\n    "@) + "]\n}"@);
    assert(json.subrange(0, 17) =~= head);
    let rest = json.skip(17);
    assert(rest =~= (j + "\n    "@) + "]\n}"@);
    assert(rest.subrange(rest.len() - 3, rest.len() as int) =~= file_tail());
    let inner = rest.take(rest.len() - 3);
    assert(inner =~= j + "\n    "@);
    if rs.len() == 0 {
        assert(blocks.len() == 0);
        assert(inner =~= "\n    "@);
        assert(rs =~= Seq::<RecordView>::empty());
        assert(matches_at(json, head, 0));
        assert(all_whitespace(inner));
    } else {
        let open = "        {"@;
        lemma_join_stored(rs);
        lemma_piece_chars();
        reveal_format_pieces();
        lemma_stored_tail_pre(rs, open);
        lemma_stored_tail_ends(rs, open);
        let st = stored_tail(rs, Seq::<char>::empty());
        assert(inner == stored_tail(rs, open));
        assert(inner == open + st);
        assert(inner[8] == open[8]);
        assert(inner[0] == open[0]);
        assert(inner[8] == '{');
        assert(!is_whitespace('{'));
        assert(!all_whitespace(inner));
        assert(inner[0] == ' ');
        assert(trim_front_pair(inner, '[', ']') == inner);
        assert(trim_back_pair(inner, '[', ']') == inner);
        lemma_split_stored(rs, open);
        lemma_parts_stored(rs, open);
        assert(matches_at(json, head, 0));
        assert(matches_at(rest, file_tail(), rest.len() - file_tail().len()));
        assert(trim_pair(inner, '[', ']') == inner);
        assert(split_on(inner, task_separator()) == stored_parts(rs, open));
    }
}

/// Reading back the file that stores some tasks gives the records that stored them, and so
/// their ids, descriptions and statuses in order, when no description or time text holds a
/// line break. `read_json` then gives tasks that match these records, their times read from
/// the stored texts, unless the machine refuses a stored time.
pub proof fn lemma_tasks_read_back(tasks: Seq<Task>, rs: Seq<RecordView>)
    requires
        task_records(tasks) == Some(rs),
        plain_records(rs),
    ensures
        read_outcome(records_json(rs)) == ReadOutcome::Parsed(rs),
        records_match(rs, tasks),
{
    lemma_read_after_write(rs);
    assert forall|i: int| 0 <= i < rs.len() implies record_matches(rs[i], tasks[i]) by {
        assert(task_record(tasks[i]) is Some);
    }
}

/// The file that stores no tasks reads back as no tasks, so `read_json` of what
/// `tasks_to_json` writes for an empty list is an empty list.
pub proof fn lemma_empty_list_reads_back()
    ensures
        task_records(Seq::<Task>::empty()) == Some(Seq::<RecordView>::empty()),
        read_outcome(records_json(Seq::<RecordView>::empty())) == ReadOutcome::Parsed(
            Seq::<RecordView>::empty(),
        ),
{
    assert(Seq::new(0, |i: int| task_record(Seq::<Task>::empty()[i])->0) =~= Seq::<RecordView>::empty());
    lemma_read_after_write(Seq::<RecordView>::empty());
}

// ---------------------------------------------------------------------------
// The stored block of a task is its JSON object, indented

proof fn lemma_indent_concat(a: Seq<char>, b: Seq<char>)
    requires
        !(a.len() > 0 && a.last() == '\r' && b.len() > 0 && b[0] == '\n'),
    ensures
        indent_lines(a + b) == indent_lines(a) + indent_lines(b),
    decreases a.len(),
{
    let s = a + b;
    if a.len() == 0 {
        assert(s =~= b);
    } else if a.len() >= 2 && a[0] == '\r' && a[1] == '\n' {
        assert(s.skip(2) =~= a.skip(2) + b);
        lemma_indent_concat(a.skip(2), b);
        assert(indent_lines(s) == nl_indent() + indent_lines(s.skip(2)));
        assert(nl_indent() + (indent_lines(a.skip(2)) + indent_lines(b)) =~= (nl_indent()
            + indent_lines(a.skip(2))) + indent_lines(b));
    } else if a[0] == '\n' {
        assert(s.skip(1) =~= a.skip(1) + b);
        lemma_indent_concat(a.skip(1), b);
        assert(nl_indent() + (indent_lines(a.skip(1)) + indent_lines(b)) =~= (nl_indent()
            + indent_lines(a.skip(1))) + indent_lines(b));
    } else {
        assert(s.skip(1) =~= a.skip(1) + b);
        if a.len() == 1 && a[0] == '\r' {
            assert(a.last() == '\r');
        }
        lemma_indent_concat(a.skip(1), b);
        assert(seq![a[0]] + (indent_lines(a.skip(1)) + indent_lines(b)) =~= (seq![a[0]]
            + indent_lines(a.skip(1))) + indent_lines(b));
    }
}

proof fn lemma_indent_no_break(t: Seq<char>)
    requires
        forall|i: int| 0 <= i < t.len() ==> #[trigger] t[i] != '\n',
    ensures
        indent_lines(t) == t,
{
    lemma_indent_plain(t);
}

/// Indenting a text with one line break between two texts without line breaks.
proof fn lemma_indent_one_break(a: Seq<char>, b: Seq<char>)
    requires
        forall|i: int| 0 <= i < a.len() ==> #[trigger] a[i] != '\n' && a[i] != '\r',
        forall|i: int| 0 <= i < b.len() ==> #[trigger] b[i] != '\n',
    ensures
        indent_lines(a + seq!['\n'] + b) == a + nl_indent() + b,
{
    lemma_indent_no_break(a);
    lemma_indent_no_break(b);
    lemma_indent_concat(a, seq!['\n'] + b);
    assert((seq!['\n'] + b).skip(1) =~= b);
    assert(a + seq!['\n'] + b =~= a + (seq!['\n'] + b));
}

/// Indenting the fixed pieces of a task's JSON object gives the fixed pieces of its
/// stored block.
proof fn lemma_piece_indents()
    ensures
        "        "@ + indent_lines("{\n    \"id\": "@) == "        {\n            \"id\": "@,
        indent_lines(",\n    \"desc\": \""@) == ",\n            \"desc\": \""@,
        indent_lines("\",\n    \"status\": \""@) == "\",\n            \"status\": \""@,
        indent_lines("\",\n    \"created_at\": \""@) == "\",\n            \"created_at\": \""@,
        indent_lines("\",\n    \"updated_at\": \""@) == "\",\n            \"updated_at\": \""@,
        indent_lines("\"\n}"@) == "\"\n        }"@,
        "{\n    \"id\": "@.last() == ' ',
        ",\n    \"desc\": \""@[0] == ',' && ",\n    \"desc\": \""@.last() == '"',
        "\",\n    \"status\": \""@[0] == '"' && "\",\n    \"status\": \""@.last() == '"',
        "\",\n    \"created_at\": \""@[0] == '"' && "\",\n    \"created_at\": \""@.last() == '"',
        "\",\n    \"updated_at\": \""@[0] == '"' && "\",\n    \"updated_at\": \""@.last() == '"',
        "\"\n}"@[0] == '"',
        "\"\n}"@.len() > 0,
        ",\n    \"desc\": \""@.len() > 0,
        "\",\n    \"status\": \""@.len() > 0,
        "\",\n    \"created_at\": \""@.len() > 0,
        "\",\n    \"updated_at\": \""@.len() > 0,
{
    reveal_strlit("        ");
    reveal_strlit("\n        ");
    reveal_with_fuel(char_free, 20);
    reveal_strlit("{\n    \"id\": ");
    reveal_strlit("{");
    reveal_strlit("    \"id\": ");
    reveal_strlit("        {\n            \"id\": ");
    assert("{\n    \"id\": "@ =~= "{"@ + seq!['\n'] + "    \"id\": "@);
    assert(char_free("{"@, '\n', 0, "{"@.len() as int));
    assert(char_free("{"@, '\r', 0, "{"@.len() as int));
    assert(char_free("    \"id\": "@, '\n', 0, "    \"id\": "@.len() as int));
    lemma_char_free("{"@, '\n', 0, "{"@.len() as int);
    lemma_char_free("{"@, '\r', 0, "{"@.len() as int);
    lemma_char_free("    \"id\": "@, '\n', 0, "    \"id\": "@.len() as int);
    lemma_indent_one_break("{"@, "    \"id\": "@);
    assert("        "@ + ("{"@ + nl_indent() + "    \"id\": "@) =~= "        {\n            \"id\": "@);
    reveal_strlit(",\n    \"desc\": \"");
    reveal_strlit(",");
    reveal_strlit("    \"desc\": \"");
    reveal_strlit(",\n            \"desc\": \"");
    assert(",\n    \"desc\": \""@ =~= ","@ + seq!['\n'] + "    \"desc\": \""@);
    assert(char_free(","@, '\n', 0, ","@.len() as int));
    assert(char_free(","@, '\r', 0, ","@.len() as int));
    assert(char_free("    \"desc\": \""@, '\n', 0, "    \"desc\": \""@.len() as int));
    lemma_char_free(","@, '\n', 0, ","@.len() as int);
    lemma_char_free(","@, '\r', 0, ","@.len() as int);
    lemma_char_free("    \"desc\": \""@, '\n', 0, "    \"desc\": \""@.len() as int);
    lemma_indent_one_break(","@, "    \"desc\": \""@);
    assert(","@ + nl_indent() + "    \"desc\": \""@ =~= ",\n            \"desc\": \""@);
    reveal_strlit("\",\n    \"status\": \"");
    reveal_strlit("\",");
    reveal_strlit("    \"status\": \"");
    reveal_strlit("\",\n            \"status\": \"");
    assert("\",\n    \"status\": \""@ =~= "\","@ + seq!['\n'] + "    \"status\": \""@);
    assert(char_free("\","@, '\n', 0, "\","@.len() as int));
    assert(char_free("\","@, '\r', 0, "\","@.len() as int));
    assert(char_free("    \"status\": \""@, '\n', 0, "    \"status\": \""@.len() as int));
    lemma_char_free("\","@, '\n', 0, "\","@.len() as int);
    lemma_char_free("\","@, '\r', 0, "\","@.len() as int);
    lemma_char_free("    \"status\": \""@, '\n', 0, "    \"status\": \""@.len() as int);
    lemma_indent_one_break("\","@, "    \"status\": \""@);
    assert("\","@ + nl_indent() + "    \"status\": \""@ =~= "\",\n            \"status\": \""@);
    reveal_strlit("\",\n    \"created_at\": \"");
    reveal_strlit("\",");
    reveal_strlit("    \"created_at\": \"");
    reveal_strlit("\",\n            \"created_at\": \"");
    assert("\",\n    \"created_at\": \""@ =~= "\","@ + seq!['\n'] + "    \"created_at\": \""@);
    assert(char_free("\","@, '\n', 0, "\","@.len() as int));
    assert(char_free("\","@, '\r', 0, "\","@.len() as int));
    assert(char_free("    \"created_at\": \""@, '\n', 0, "    \"created_at\": \""@.len() as int));
    lemma_char_free("\","@, '\n', 0, "\","@.len() as int);
    lemma_char_free("\","@, '\r', 0, "\","@.len() as int);
    lemma_char_free("    \"created_at\": \""@, '\n', 0, "    \"created_at\": \""@.len() as int);
    lemma_indent_one_break("\","@, "    \"created_at\": \""@);
    assert("\","@ + nl_indent() + "    \"created_at\": \""@ =~= "\",\n            \"created_at\": \""@);
    reveal_strlit("\",\n    \"updated_at\": \"");
    reveal_strlit("\",");
    reveal_strlit("    \"updated_at\": \"");
    reveal_strlit("\",\n            \"updated_at\": \"");
    assert("\",\n    \"updated_at\": \""@ =~= "\","@ + seq!['\n'] + "    \"updated_at\": \""@);
    assert(char_free("\","@, '\n', 0, "\","@.len() as int));
    assert(char_free("\","@, '\r', 0, "\","@.len() as int));
    assert(char_free("    \"updated_at\": \""@, '\n', 0, "    \"updated_at\": \""@.len() as int));
    lemma_char_free("\","@, '\n', 0, "\","@.len() as int);
    lemma_char_free("\","@, '\r', 0, "\","@.len() as int);
    lemma_char_free("    \"updated_at\": \""@, '\n', 0, "    \"updated_at\": \""@.len() as int);
    lemma_indent_one_break("\","@, "    \"updated_at\": \""@);
    assert("\","@ + nl_indent() + "    \"updated_at\": \""@ =~= "\",\n            \"updated_at\": \""@);
    reveal_strlit("\"\n}");
    reveal_strlit("\"");
    reveal_strlit("}");
    reveal_strlit("\"\n        }");
    assert("\"\n}"@ =~= "\""@ + seq!['\n'] + "}"@);
    assert(char_free("\""@, '\n', 0, "\""@.len() as int));
    assert(char_free("\""@, '\r', 0, "\""@.len() as int));
    assert(char_free("}"@, '\n', 0, "}"@.len() as int));
    lemma_char_free("\""@, '\n', 0, "\""@.len() as int);
    lemma_char_free("\""@, '\r', 0, "\""@.len() as int);
    lemma_char_free("}"@, '\n', 0, "}"@.len() as int);
    lemma_indent_one_break("\""@, "}"@);
    assert("\""@ + nl_indent() + "}"@ =~= "\"\n        }"@);
}

/// The block that stores a task is the task's JSON object (as `Task::to_json` writes it)
/// with every line indented by eight spaces.
#[verifier::spinoff_prover]
#[verifier::rlimit(40)]
pub proof fn lemma_block_is_indented_json(r: RecordView)
    ensures
        "        "@ + indent_lines(record_json(r)) == record_block(r),
{
    lemma_piece_indents();
    lemma_decimal_digits(r.id as nat);
    lemma_key_chars(r.status);
    let p0 = "{\n    \"id\": "@;
    let p1 = ",\n    \"desc\": \""@;
    let p2 = "\",\n    \"status\": \""@;
    let p3 = "\",\n    \"created_at\": \""@;
    let p4 = "\",\n    \"updated_at\": \""@;
    let p5 = "\"\n}"@;
    let d = decimal(r.id as nat);
    let key = status_key(r.status);
    assert forall|i: int| 0 <= i < d.len() implies #[trigger] d[i] != '\n' && d[i] != '\r' by {
        assert(is_digit(d[i]));
    }
    lemma_indent_no_break(d);
    lemma_indent_no_break(key);
    let l2 = p0 + d;
    let l3 = l2 + p1;
    let l4 = l3 + r.desc;
    let l5 = l4 + p2;
    let l6 = l5 + key;
    let l7 = l6 + p3;
    let l8 = l7 + r.created_at;
    let l9 = l8 + p4;
    let l10 = l9 + r.updated_at;
    assert(record_json(r) == l10 + p5);
    lemma_indent_concat(p0, d);
    assert(l2.last() == d.last());
    lemma_indent_concat(l2, p1);
    assert(l3.last() == p1.last());
    lemma_indent_concat(l3, r.desc);
    lemma_indent_concat(l4, p2);
    assert(l5.last() == p2.last());
    lemma_indent_concat(l5, key);
    lemma_indent_concat(l6, p3);
    assert(l7.last() == p3.last());
    lemma_indent_concat(l7, r.created_at);
    lemma_indent_concat(l8, p4);
    assert(l9.last() == p4.last());
    lemma_indent_concat(l9, r.updated_at);
    lemma_indent_concat(l10, p5);
    assert("        "@ + indent_lines(record_json(r)) =~= record_block(r));
}

} // verus!
