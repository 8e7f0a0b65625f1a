use vstd::prelude::*;
use crate::number::{int_literal_value, parse_i64};
use crate::text::{is_ws, lead_ws, count_indents, leading_ws, str_ends_with_char, str_find_char, str_is_blank, str_starts_with, str_starts_with_char, str_trim_start, substring, lemma_lead_ws, lemma_find_char, ends_with, find_char, indent_of, is_blank, starts_with, trim_start};
use crate::value::{
    DocModel, YamlEntry, EntryModel, UnityObject, YamlValue, ValueModel, docs_model, entries_model,
    groups_model, lemma_entries_model_concat, lemma_entries_model_single, lemma_groups_model_push,
    scalar_model, scalar_value,
};

verus! {

/// What is wrong with a document header.
#[derive(PartialEq, Eq, Structural, Clone, Copy, Debug)]
pub enum HeaderFault {
    /// The class tag does not start with `!u!`.
    NoClassPrefix,
    /// The class tag is not an integer.
    BadClassId,
    /// The anchor is missing.
    NoId,
    /// The anchor does not start with `&`.
    NoIdPrefix,
    /// The anchor is `&` alone.
    EmptyId,
}

/// Why a file could not be parsed.
#[derive(Debug, Clone, PartialEq)]
pub enum ParseError {
    /// A malformed document header.
    Header { line: String, fault: HeaderFault },
    /// A line that should hold `key: value` has no colon.
    MissingColon { line: String },
    /// A line indented deeper than its place allows.
    BadIndent { line: String },
    /// The input ended inside a quoted or flow value.
    UnexpectedEnd,
}

/// Mathematical model of a [`ParseError`].
pub enum ErrorModel {
    Header(Seq<char>, HeaderFault),
    MissingColon(Seq<char>),
    BadIndent(Seq<char>),
    UnexpectedEnd,
}

impl View for ParseError {
    type V = ErrorModel;

    open spec fn view(&self) -> ErrorModel {
        match self {
            ParseError::Header { line, fault } => ErrorModel::Header(line@, *fault),
            ParseError::MissingColon { line } => ErrorModel::MissingColon(line@),
            ParseError::BadIndent { line } => ErrorModel::BadIndent(line@),
            ParseError::UnexpectedEnd => ErrorModel::UnexpectedEnd,
        }
    }
}

pub open spec fn lines_model(v: Seq<String>) -> Seq<Seq<char>> {
    v.map_values(|l: String| l@)
}

/// Entries parsed from some lines, and the index of the first line not consumed.
pub type Parsed = Result<(Seq<EntryModel>, nat), ErrorModel>;

/// Splits the line of an entry at indentation `ind` into its key and the text after the
/// colon. An array item whose value is a flow mapping (`- {...}`) has an empty key.
pub open spec fn split_entry(line: Seq<char>, ind: nat) -> Result<
    (Seq<char>, Seq<char>),
    ErrorModel,
> {
    let w = 2 * ind;
    match find_char(line, ':') {
        None => Err(ErrorModel::MissingColon(line)),
        Some(c) => if line.len() < w {
            Err(ErrorModel::BadIndent(line))
        } else if starts_with(line.skip(w as int), seq!['{']) && ends_with(
            line.take(w as int),
            seq!['-', ' '],
        ) {
            Ok((Seq::empty(), line.skip(w as int)))
        } else if c < w {
            Err(ErrorModel::BadIndent(line))
        } else {
            Ok((line.subrange(w as int, c as int), line.skip(c + 1int)))
        },
    }
}

/// The value text after the colon: trimmed at the start, except that a lone space is kept
/// (it stands for the empty string), and without a leading `- ` item marker.
pub open spec fn value_text(after: Seq<char>) -> Seq<char> {
    let v = if after == seq![' '] {
        after
    } else {
        trim_start(after)
    };
    if starts_with(v, seq!['-', ' ']) {
        v.skip(2)
    } else {
        v
    }
}

pub proof fn lemma_value_text_len(after: Seq<char>)
    ensures
        value_text(after).len() <= after.len(),
{
    lemma_lead_ws(after);
}

/// Index of the first `, ` in `s`.
pub open spec fn find_sep(s: Seq<char>) -> Option<nat>
    decreases s.len(),
{
    if s.len() < 2 {
        None
    } else if s[0] == ',' && s[1] == ' ' {
        Some(0)
    } else {
        match find_sep(s.drop_first()) {
            Some(i) => Some(i + 1),
            None => None,
        }
    }
}

pub proof fn lemma_find_sep(s: Seq<char>)
    ensures
        match find_sep(s) {
            Some(i) => i + 2 <= s.len() && s[i as int] == ',' && s[i + 1int] == ' ' && forall|j: int|
                0 <= j < i ==> !(#[trigger] s[j] == ',' && s[j + 1] == ' '),
            None => forall|j: int| 0 <= j < s.len() - 1 ==> !(#[trigger] s[j] == ',' && s[j + 1] == ' '),
        },
    decreases s.len(),
{
    if s.len() >= 2 && !(s[0] == ',' && s[1] == ' ') {
        lemma_find_sep(s.drop_first());
        assert forall|j: int| 0 < j < s.len() implies #[trigger] s[j] == s.drop_first()[j - 1] by {}
    }
}

/// The entries of a flow mapping's body: its `, `-separated parts, each read as a
/// one-line entry.
pub open spec fn flow_entries(body: Seq<char>) -> Result<Seq<EntryModel>, ErrorModel>
    decreases 2 * body.len() + 2,
{
    match find_sep(body) {
        None => inline_entries(body),
        Some(i) => {
            proof {
                lemma_find_sep(body);
            }
            match inline_entries(body.take(i as int)) {
                Err(e) => Err(e),
                Ok(first) => match flow_entries(body.skip(i + 2int)) {
                    Err(e) => Err(e),
                    Ok(rest) => Ok(first + rest),
                },
            }
        },
    }
}


/// The entries of one line read on its own, as a flow mapping's parts are: a value that
/// would need further lines is cut short by the end of input.
pub open spec fn inline_entries(f: Seq<char>) -> Result<Seq<EntryModel>, ErrorModel>
    decreases 2 * f.len() + 1,
{
    match split_entry(f, 0) {
        Err(e) => Err(e),
        Ok((key, after)) => {
            let v = value_text(after);
            if v.len() == 0 {
                Ok(seq![EntryModel { key, value: ValueModel::Str(Seq::empty()) }])
            } else if v[0] == '{' {
                if ends_with(v, seq!['}']) && v.len() >= 2 {
                    proof {
                        lemma_find_char(f, ':');
                        lemma_value_text_len(after);
                    }
                    match flow_entries(v.subrange(1, v.len() - 1)) {
                        Err(e) => Err(e),
                        Ok(es) => Ok(seq![EntryModel { key, value: ValueModel::Object(es) }]),
                    }
                } else {
                    Err(ErrorModel::UnexpectedEnd)
                }
            } else if v[0] == '"' || v[0] == '\'' {
                if ends_with(v.drop_first(), seq![v[0]]) {
                    Ok(
                        seq![
                            EntryModel {
                                key,
                                value: ValueModel::Str(v.subrange(1, v.len() - 1)),
                            },
                        ],
                    )
                } else {
                    Err(ErrorModel::UnexpectedEnd)
                }
            } else {
                Ok(seq![EntryModel { key, value: scalar_model(v) }])
            }
        },
    }
}


/// Collects a flow mapping from line `pos` on, `acc` holding what follows its `{` so far:
/// each further line is added trimmed at the start, after a space, until the text ends
/// with `}`. Gives the text between the braces and the index of the last line used.
pub open spec fn flow_collect(ls: Seq<Seq<char>>, pos: nat, acc: Seq<char>) -> Option<
    (Seq<char>, nat),
>
    decreases ls.len() - pos,
{
    if ends_with(acc, seq!['}']) {
        Some((acc.drop_last(), pos))
    } else if pos + 1 >= ls.len() {
        None
    } else {
        flow_collect(ls, pos + 1, acc + seq![' '] + trim_start(ls[pos + 1int]))
    }
}

/// A continuation line of a quoted value without its first `k` characters, where the
/// line has that many and they are ASCII.
pub open spec fn continuation(line: Seq<char>, k: nat) -> Seq<char> {
    if k <= line.len() && forall|i: int| 0 <= i < k ==> (#[trigger] line[i] as u32) < 128 {
        line.skip(k as int)
    } else {
        line
    }
}

/// The line break that joins the lines of a quoted value: CR LF within single quotes,
/// LF within double quotes.
pub open spec fn quote_join(q: char) -> Seq<char> {
    if q == '\'' {
        seq!['\r', '\n']
    } else {
        seq!['\n']
    }
}

/// Collects a quoted value from line `pos` on, `acc` holding what follows the opening
/// quote `q` so far, until the text ends with `q`. Gives the text between the quotes and
/// the index of the last line used.
pub open spec fn quote_collect(ls: Seq<Seq<char>>, pos: nat, q: char, k: nat, acc: Seq<char>) -> Option<
    (Seq<char>, nat),
>
    decreases ls.len() - pos,
{
    if ends_with(acc, seq![q]) {
        Some((acc.drop_last(), pos))
    } else if pos + 1 >= ls.len() {
        None
    } else {
        quote_collect(ls, pos + 1, q, k, acc + quote_join(q) + continuation(ls[pos + 1int], k))
    }
}

/// Whether `line` opens an item of a block sequence at indentation `ind`.
pub open spec fn is_item_line(line: Seq<char>, ind: nat) -> bool {
    &&& indent_of(line) == ind
    &&& starts_with(trim_start(line), seq!['-'])
    &&& !starts_with(line, seq!['-', '-', '-'])
}

/// The entry with key `key` whose flow mapping was collected as `collected`.
pub open spec fn flow_outcome(key: Seq<char>, collected: Option<(Seq<char>, nat)>) -> Parsed {
    match collected {
        None => Err(ErrorModel::UnexpectedEnd),
        Some((body, last)) => match flow_entries(body) {
            Err(e) => Err(e),
            Ok(es) => Ok((seq![EntryModel { key, value: ValueModel::Object(es) }], last + 1)),
        },
    }
}

/// The entry with key `key` whose quoted value was collected as `collected`.
pub open spec fn quote_outcome(key: Seq<char>, collected: Option<(Seq<char>, nat)>) -> Parsed {
    match collected {
        None => Err(ErrorModel::UnexpectedEnd),
        Some((text, last)) => Ok((seq![EntryModel { key, value: ValueModel::Str(text) }], last + 1)),
    }
}

/// Parses the entry that starts on line `pos` at indentation `ind`.
pub open spec fn parse_entry(ls: Seq<Seq<char>>, pos: nat, ind: nat) -> Parsed
    decreases ls.len() - pos, 0nat,
{
    if pos >= ls.len() {
        Err(ErrorModel::UnexpectedEnd)
    } else {
        match split_entry(ls[pos as int], ind) {
            Err(e) => Err(e),
            Ok((key, after)) => {
                let v = value_text(after);
                if v.len() == 0 {
                    let next = pos + 1;
                    if next >= ls.len() {
                        Ok((seq![EntryModel { key, value: ValueModel::Str(Seq::empty()) }], next))
                    } else {
                        let li = indent_of(ls[next as int]);
                        if li == ind + 1 {
                            match parse_block(ls, next, ind) {
                                Err(e) => Err(e),
                                Ok((es, p)) => Ok(
                                    (seq![EntryModel { key, value: ValueModel::Entries(es) }], p),
                                ),
                            }
                        } else if li == ind && starts_with(trim_start(ls[next as int]), seq!['-']) {
                            match parse_array(ls, next, ind) {
                                Err(e) => Err(e),
                                Ok((gs, p)) => Ok(
                                    (seq![EntryModel { key, value: ValueModel::Array(gs) }], p),
                                ),
                            }
                        } else if li <= ind {
                            Ok(
                                (
                                    seq![EntryModel { key, value: ValueModel::Str(Seq::empty()) }],
                                    next,
                                ),
                            )
                        } else {
                            Err(ErrorModel::BadIndent(ls[next as int]))
                        }
                    }
                } else if v[0] == '{' {
                    flow_outcome(key, flow_collect(ls, pos, v.drop_first()))
                } else if v[0] == '"' || v[0] == '\'' {
                    quote_outcome(
                        key,
                        quote_collect(ls, pos, v[0], indent_of(ls[pos as int]) + 3, v.drop_first()),
                    )
                } else {
                    Ok((seq![EntryModel { key, value: scalar_model(v) }], pos + 1))
                }
            },
        }
    }
}

/// Parses the entries of a block mapping nested under indentation `ind`: the lines from
/// `pos` on that are indented deeper than `ind`.
pub open spec fn parse_block(ls: Seq<Seq<char>>, pos: nat, ind: nat) -> Parsed
    decreases ls.len() - pos, 1nat,
{
    if pos >= ls.len() || indent_of(ls[pos as int]) <= ind {
        Ok((Seq::empty(), pos))
    } else {
        match parse_entry(ls, pos, ind + 1) {
            Err(e) => Err(e),
            Ok((first, p)) => if p <= pos || p > ls.len() {
                Ok((first, p))
            } else {
                match parse_block(ls, p, ind) {
                    Err(e) => Err(e),
                    Ok((rest, q)) => Ok((first + rest, q)),
                }
            },
        }
    }
}

/// Parses one item of a block sequence at indentation `ind`: the entry on its dash line,
/// then the deeper indented entries that follow.
pub open spec fn parse_item(ls: Seq<Seq<char>>, pos: nat, ind: nat) -> Parsed
    decreases ls.len() - pos, 1nat,
{
    match parse_entry(ls, pos, ind + 1) {
        Err(e) => Err(e),
        Ok((first, p)) => if p <= pos || p > ls.len() {
            Ok((first, p))
        } else {
            match parse_block(ls, p, ind) {
                Err(e) => Err(e),
                Ok((rest, q)) => Ok((first + rest, q)),
            }
        },
    }
}

/// Parses the items of a block sequence at indentation `ind`, from line `pos` on.
pub open spec fn parse_array(ls: Seq<Seq<char>>, pos: nat, ind: nat) -> Result<
    (Seq<Seq<EntryModel>>, nat),
    ErrorModel,
>
    decreases ls.len() - pos, 2nat,
{
    if pos < ls.len() && is_item_line(ls[pos as int], ind) {
        match parse_item(ls, pos, ind) {
            Err(e) => Err(e),
            Ok((item, p)) => if p <= pos || p > ls.len() {
                Ok((seq![item], p))
            } else {
                match parse_array(ls, p, ind) {
                    Err(e) => Err(e),
                    Ok((rest, q)) => Ok((seq![item] + rest, q)),
                }
            },
        }
    } else {
        Ok((Seq::empty(), pos))
    }
}


/// The space-separated word of `s` that starts at its beginning.
pub open spec fn first_word(s: Seq<char>) -> Seq<char> {
    match find_char(s, ' ') {
        Some(i) => s.take(i as int),
        None => s,
    }
}

/// What follows the first space of `s`, if it has one.
pub open spec fn after_word(s: Seq<char>) -> Option<Seq<char>> {
    match find_char(s, ' ') {
        Some(i) => Some(s.skip(i + 1int)),
        None => None,
    }
}

/// Reads a header line `--- !u!<class> &<id>` (further words are ignored) into its
/// class tag and anchor.
pub open spec fn header_fields(line: Seq<char>) -> Result<(int, Seq<char>), HeaderFault> {
    let rest = line.skip(4);
    let tag = first_word(rest);
    if !starts_with(tag, seq!['!', 'u', '!']) {
        Err(HeaderFault::NoClassPrefix)
    } else {
        match int_literal_value(tag.skip(3)) {
            None => Err(HeaderFault::BadClassId),
            Some(class_id) => match after_word(rest) {
                None => Err(HeaderFault::NoId),
                Some(more) => {
                    let anchor = first_word(more);
                    if !starts_with(anchor, seq!['&']) {
                        Err(HeaderFault::NoIdPrefix)
                    } else if anchor.len() == 1 {
                        Err(HeaderFault::EmptyId)
                    } else {
                        Ok((class_id, anchor.drop_first()))
                    }
                },
            },
        }
    }
}

/// The documents read so far, with `cur` added where it has an anchor.
pub open spec fn close_doc(done: Seq<DocModel>, cur: DocModel) -> Seq<DocModel> {
    if cur.id.len() > 0 {
        done.push(cur)
    } else {
        done
    }
}

/// Parses the lines from `pos` on, `cur` being the open document and `done` the
/// documents closed before it.
pub open spec fn parse_docs(ls: Seq<Seq<char>>, pos: nat, cur: DocModel, done: Seq<DocModel>) -> Result<
    Seq<DocModel>,
    ErrorModel,
>
    decreases ls.len() - pos,
{
    if pos >= ls.len() {
        Ok(close_doc(done, cur))
    } else {
        let line = ls[pos as int];
        if starts_with(line, seq!['%']) || is_blank(line) {
            parse_docs(ls, pos + 1, cur, done)
        } else if starts_with(line, seq!['-', '-', '-', ' ']) {
            match header_fields(line) {
                Err(f) => Err(ErrorModel::Header(line, f)),
                Ok((class_id, id)) => parse_docs(
                    ls,
                    pos + 1,
                    DocModel { id, class_id, kind_name: Seq::empty(), entries: Seq::empty() },
                    close_doc(done, cur),
                ),
            }
        } else if indent_of(line) == 0 {
            match find_char(line, ':') {
                None => Err(ErrorModel::MissingColon(line)),
                Some(c) => parse_docs(
                    ls,
                    pos + 1,
                    DocModel { kind_name: line.take(c as int), entries: Seq::empty(), ..cur },
                    done,
                ),
            }
        } else {
            match parse_entry(ls, pos, indent_of(line)) {
                Err(e) => Err(e),
                Ok((es, p)) => if p <= pos || p > ls.len() {
                    Err(ErrorModel::UnexpectedEnd)
                } else {
                    parse_docs(ls, p, DocModel { entries: cur.entries + es, ..cur }, done)
                },
            }
        }
    }
}

/// The documents that a file's lines hold.
pub open spec fn parse_model(ls: Seq<Seq<char>>) -> Result<Seq<DocModel>, ErrorModel> {
    parse_docs(
        ls,
        0,
        DocModel { id: Seq::empty(), class_id: 0, kind_name: Seq::empty(), entries: Seq::empty() },
        Seq::empty(),
    )
}


pub open spec fn entries_as(r: Result<Vec<YamlEntry>, ParseError>, m: Result<Seq<EntryModel>, ErrorModel>) -> bool {
    match (r, m) {
        (Ok(es), Ok(ms)) => entries_model(es@) == ms,
        (Err(e), Err(me)) => e@ == me,
        _ => false,
    }
}

pub open spec fn parsed_as(r: Result<(Vec<YamlEntry>, usize), ParseError>, m: Parsed) -> bool {
    match (r, m) {
        (Ok((es, p)), Ok((ms, q))) => entries_model(es@) == ms && p == q,
        (Err(e), Err(me)) => e@ == me,
        _ => false,
    }
}

/// A list of one entry.
fn single(e: YamlEntry) -> (r: Vec<YamlEntry>)
    ensures
        entries_model(r@) == seq![e@],
{
    proof {
        lemma_entries_model_single(e);
    }
    let r = vec![e];
    assert(r@ == seq![e]);
    r
}

fn split_line<'a>(line: &'a str, ind: usize) -> (r: Result<(String, &'a str), ParseError>)
    ensures
        match split_entry(line@, ind as nat) {
            Ok((k, a)) => r matches Ok((key, after)) && key@ == k && after@ == a,
            Err(e) => r matches Err(err) && err@ == e,
        },
{
    let n = line.unicode_len();
    let c = match str_find_char(line, ':') {
        None => {
            return Err(ParseError::MissingColon { line: line.to_string() });
        },
        Some(c) => c,
    };
    proof {
        lemma_find_char(line@, ':');
    }
    if ind > n || n - ind < ind {
        return Err(ParseError::BadIndent { line: line.to_string() });
    }
    let w = 2 * ind;
    let left = line.substring_char(0, w);
    let right = line.substring_char(w, n);
    assert(left@ =~= line@.take(w as int));
    assert(right@ =~= line@.skip(w as int));
    proof {
        reveal_strlit("- ");
        assert("- "@ =~= seq!['-', ' ']);
    }
    if str_starts_with_char(right, '{') && crate::text::str_ends_with(left, "- ") {
        return Ok((String::new(), right));
    }
    if c < w {
        return Err(ParseError::BadIndent { line: line.to_string() });
    }
    Ok((substring(line, w, c), line.substring_char(c + 1, n)))
}

fn value_str<'a>(after: &'a str) -> (r: &'a str)
    ensures
        r@ == value_text(after@),
{
    let lone_space = after.unicode_len() == 1 && after.get_char(0) == ' ';
    assert(lone_space == (after@ == seq![' '])) by {
        if after@ == seq![' '] {
            assert(after@[0] == ' ');
        }
        if lone_space {
            assert(after@ =~= seq![' ']);
        }
    }
    let v = if lone_space {
        after
    } else {
        str_trim_start(after)
    };
    proof {
        reveal_strlit("- ");
        assert("- "@ =~= seq!['-', ' ']);
    }
    if str_starts_with(v, "- ") {
        v.substring_char(2, v.unicode_len())
    } else {
        v
    }
}

fn find_separator(s: &str) -> (r: Option<usize>)
    ensures
        match find_sep(s@) {
            Some(i) => r matches Some(j) && j as nat == i,
            None => r is None,
        },
{
    let n = s.unicode_len();
    proof {
        lemma_find_sep(s@);
    }
    if n < 2 {
        return None;
    }
    let mut i: usize = 0;
    while i + 1 < n
        invariant
            n == s@.len(),
            n >= 2,
            i + 1 <= n,
            forall|j: int| 0 <= j < i ==> !(#[trigger] s@[j] == ',' && s@[j + 1] == ' '),
        decreases n - i,
    {
        if s.get_char(i) == ',' && s.get_char(i + 1) == ' ' {
            assert(s@[i as int] == ',' && s@[i + 1] == ' ');
            proof {
                lemma_find_sep(s@);
            }
            return Some(i);
        }
        i = i + 1;
    }
    proof {
        lemma_find_sep(s@);
    }
    None
}

fn inline_entries_exec(f: &str) -> (r: Result<Vec<YamlEntry>, ParseError>)
    ensures
        entries_as(r, inline_entries(f@)),
    decreases 2 * f@.len() + 1,
{
    match split_line(f, 0) {
        Err(e) => Err(e),
        Ok((key, after)) => {
            let v = value_str(after);
            let n = v.unicode_len();
            if n == 0 {
                let e = YamlEntry { key, value: YamlValue::Str(String::new()) };
                return Ok(single(e));
            }
            let c0 = v.get_char(0);
            let ghost spec_r = inline_entries(f@);
            assert(split_entry(f@, 0) == Ok::<(Seq<char>, Seq<char>), ErrorModel>((key@, after@)));
            assert(value_text(after@) == v@);
            assert(v@[0] == c0);
            if c0 == '{' {
                if n >= 2 && v.get_char(n - 1) == '}' {
                    assert(ends_with(v@, seq!['}'])) by {
                        assert(v@.skip(n - 1) =~= seq!['}']);
                    }
                    proof {
                        lemma_find_char(f@, ':');
                        lemma_value_text_len(after@);
                    }
                    match flow_entries_exec(v.substring_char(1, n - 1)) {
                        Err(e) => Err(e),
                        Ok(es) => {
                            let e = YamlEntry { key, value: YamlValue::Object(es) };
                            Ok(single(e))
                        },
                    }
                } else {
                    assert(!(ends_with(v@, seq!['}']) && v@.len() >= 2)) by {
                        if ends_with(v@, seq!['}']) && v@.len() >= 2 {
                            assert(v@.skip(n - 1)[0] == v@[n - 1]);
                        }
                    }
                    Err(ParseError::UnexpectedEnd)
                }
            } else if c0 == '"' || c0 == '\'' {
                let rest = v.substring_char(1, n);
                assert(rest@ =~= v@.drop_first());
                if str_ends_with_char(rest, c0) {
                    let e = YamlEntry { key, value: YamlValue::Str(substring(v, 1, n - 1)) };
                    proof {
                        lemma_entries_model_single(e);
                        assert(rest@.len() >= 1);
                    }
                    Ok(single(e))
                } else {
                    Err(ParseError::UnexpectedEnd)
                }
            } else {
                let e = YamlEntry { key, value: scalar_value(v) };
                Ok(single(e))
            }
        },
    }
}

fn flow_entries_exec(body: &str) -> (r: Result<Vec<YamlEntry>, ParseError>)
    ensures
        entries_as(r, flow_entries(body@)),
    decreases 2 * body@.len() + 2,
{
    proof {
        lemma_find_sep(body@);
    }
    match find_separator(body) {
        None => inline_entries_exec(body),
        Some(i) => {
            let n = body.unicode_len();
            let head = body.substring_char(0, i);
            let tail = body.substring_char(i + 2, n);
            assert(head@ =~= body@.take(i as int));
            assert(tail@ =~= body@.skip(i + 2int));
            match inline_entries_exec(head) {
                Err(e) => Err(e),
                Ok(mut first) => match flow_entries_exec(tail) {
                    Err(e) => Err(e),
                    Ok(mut rest) => {
                        let ghost a = first@;
                        let ghost b = rest@;
                        first.append(&mut rest);
                        proof {
                            lemma_entries_model_concat(a, b);
                        }
                        Ok(first)
                    },
                },
            }
        },
    }
}


pub open spec fn after_prefix(acc: Seq<EntryModel>, r: Parsed) -> Parsed {
    match r {
        Ok((es, q)) => Ok((acc + es, q)),
        Err(e) => Err(e),
    }
}

pub open spec fn after_groups(
    acc: Seq<Seq<EntryModel>>,
    r: Result<(Seq<Seq<EntryModel>>, nat), ErrorModel>,
) -> Result<(Seq<Seq<EntryModel>>, nat), ErrorModel> {
    match r {
        Ok((gs, q)) => Ok((acc + gs, q)),
        Err(e) => Err(e),
    }
}

fn continuation_str<'a>(line: &'a str, k: usize) -> (r: &'a str)
    ensures
        r@ == continuation(line@, k as nat),
{
    let n = line.unicode_len();
    if k > n {
        return line;
    }
    let mut i: usize = 0;
    while i < k
        invariant
            n == line@.len(),
            k <= n,
            i <= k,
            forall|j: int| 0 <= j < i ==> (#[trigger] line@[j] as u32) < 128,
        decreases k - i,
    {
        if line.get_char(i) as u32 >= 128 {
            return line;
        }
        i = i + 1;
    }
    line.substring_char(k, n)
}

fn is_item_str(line: &str, ind: usize) -> (r: bool)
    ensures
        r == is_item_line(line@, ind as nat),
{
    proof {
        reveal_strlit("---");
        assert("---"@ =~= seq!['-', '-', '-']);
    }
    count_indents(line) == ind && str_starts_with_char(str_trim_start(line), '-')
        && !str_starts_with(line, "---")
}

fn parse_entry_exec(lines: &Vec<String>, pos: usize, ind: usize) -> (r: Result<
    (Vec<YamlEntry>, usize),
    ParseError,
>)
    requires
        pos < lines@.len(),
    ensures
        parsed_as(r, parse_entry(lines_model(lines@), pos as nat, ind as nat)),
        r matches Ok((_, q)) ==> pos < q <= lines@.len(),
    decreases lines@.len() - pos, 0nat,
{
    let ghost ls = lines_model(lines@);
    let len = lines.len();
    let line = lines[pos].as_str();
    assert(ls[pos as int] == line@);
    let (key, after) = match split_line(line, ind) {
        Err(e) => {
            return Err(e);
        },
        Ok(ka) => ka,
    };
    let v = value_str(after);
    let n = v.unicode_len();
    if n == 0 {
        let next = pos + 1;
        if next >= lines.len() {
            return Ok((single(YamlEntry { key, value: YamlValue::Str(String::new()) }), next));
        }
        let nl = lines[next].as_str();
        assert(ls[next as int] == nl@);
        let li = count_indents(nl);
        if li > ind && li - 1 == ind {
            match parse_block_exec(lines, next, ind) {
                Err(e) => Err(e),
                Ok((es, p)) => Ok((single(YamlEntry { key, value: YamlValue::Entries(es) }), p)),
            }
        } else if li == ind && str_starts_with_char(str_trim_start(nl), '-') {
            match parse_array_exec(lines, next, ind) {
                Err(e) => Err(e),
                Ok((gs, p)) => Ok((single(YamlEntry { key, value: YamlValue::Array(gs) }), p)),
            }
        } else if li <= ind {
            Ok((single(YamlEntry { key, value: YamlValue::Str(String::new()) }), next))
        } else {
            Err(ParseError::BadIndent { line: nl.to_string() })
        }
    } else {
        let c0 = v.get_char(0);
        if c0 == '{' {
            let mut acc = substring(v, 1, n);
            let mut p = pos;
            assert(acc@ =~= v@.drop_first());
            while !str_ends_with_char(acc.as_str(), '}')
                invariant
                    ls == lines_model(lines@),
                    len == lines@.len(),
                    pos <= p < lines@.len(),
                    v@.len() > 0,
                    parse_entry(ls, pos as nat, ind as nat) == flow_outcome(
                        key@,
                        flow_collect(ls, pos as nat, v@.drop_first()),
                    ),
                    flow_collect(ls, pos as nat, v@.drop_first()) == flow_collect(
                        ls,
                        p as nat,
                        acc@,
                    ),
                decreases lines@.len() - p,
            {
                if p + 1 >= lines.len() {
                    return Err(ParseError::UnexpectedEnd);
                }
                p = p + 1;
                let l = lines[p].as_str();
                assert(ls[p as int] == l@);
                let ghost before = acc@;
                proof {
                    reveal_strlit(" ");
                }
                acc.append(" ");
                acc.append(str_trim_start(l));
                assert(acc@ =~= before + seq![' '] + trim_start(ls[p as int]));
            }
            let m = acc.as_str().unicode_len();
            let body = substring(acc.as_str(), 0, m - 1);
            assert(body@ =~= acc@.drop_last());
            match flow_entries_exec(body.as_str()) {
                Err(e) => Err(e),
                Ok(es) => Ok((single(YamlEntry { key, value: YamlValue::Object(es) }), p + 1)),
            }
        } else if c0 == '"' || c0 == '\'' {
            // the line's length fits in `usize`, and so does its indentation plus three
            let line_len = line.unicode_len();
            proof {
                crate::text::lemma_lead_ws(line@);
            }
            let k = count_indents(line) + 3;
            let mut acc = substring(v, 1, n);
            let mut p = pos;
            assert(acc@ =~= v@.drop_first());
            let join = if c0 == '\'' {
                "\r\n"
            } else {
                "\n"
            };
            proof {
                reveal_strlit("\r\n");
                reveal_strlit("\n");
                assert(join@ =~= quote_join(c0));
            }
            while !str_ends_with_char(acc.as_str(), c0)
                invariant
                    ls == lines_model(lines@),
                    len == lines@.len(),
                    pos <= p < lines@.len(),
                    v@.len() > 0,
                    k == indent_of(ls[pos as int]) + 3,
                    c0 == v@[0],
                    parse_entry(ls, pos as nat, ind as nat) == quote_outcome(
                        key@,
                        quote_collect(ls, pos as nat, c0, k as nat, v@.drop_first()),
                    ),
                    join@ == quote_join(c0),
                    quote_collect(ls, pos as nat, c0, k as nat, v@.drop_first()) == quote_collect(
                        ls,
                        p as nat,
                        c0,
                        k as nat,
                        acc@,
                    ),
                decreases lines@.len() - p,
            {
                if p + 1 >= lines.len() {
                    return Err(ParseError::UnexpectedEnd);
                }
                p = p + 1;
                let l = lines[p].as_str();
                assert(ls[p as int] == l@);
                let ghost before = acc@;
                acc.append(join);
                acc.append(continuation_str(l, k));
                assert(acc@ =~= before + quote_join(c0) + continuation(ls[p as int], k as nat));
            }
            let m = acc.as_str().unicode_len();
            let text = substring(acc.as_str(), 0, m - 1);
            assert(text@ =~= acc@.drop_last());
            Ok((single(YamlEntry { key, value: YamlValue::Str(text) }), p + 1))
        } else {
            Ok((single(YamlEntry { key, value: scalar_value(v) }), pos + 1))
        }
    }
}

fn parse_block_exec(lines: &Vec<String>, pos: usize, ind: usize) -> (r: Result<
    (Vec<YamlEntry>, usize),
    ParseError,
>)
    requires
        pos <= lines@.len(),
    ensures
        parsed_as(r, parse_block(lines_model(lines@), pos as nat, ind as nat)),
        r matches Ok((_, q)) ==> pos <= q <= lines@.len(),
    decreases lines@.len() - pos, 1nat,
{
    let ghost ls = lines_model(lines@);
    let mut acc: Vec<YamlEntry> = Vec::new();
    let mut p = pos;
    assert(entries_model(acc@) + Seq::<EntryModel>::empty() =~= Seq::<EntryModel>::empty());
    loop
        invariant
            ls == lines_model(lines@),
            pos <= p <= lines@.len(),
            parse_block(ls, pos as nat, ind as nat) == after_prefix(
                entries_model(acc@),
                parse_block(ls, p as nat, ind as nat),
            ),
        decreases lines@.len() - p,
    {
        if p >= lines.len() || count_indents(lines[p].as_str()) <= ind {
            assert(entries_model(acc@) + Seq::<EntryModel>::empty() =~= entries_model(acc@));
            return Ok((acc, p));
        }
        match parse_entry_exec(lines, p, ind + 1) {
            Err(e) => {
                return Err(e);
            },
            Ok((mut es, q)) => {
                let ghost a = acc@;
                let ghost b = es@;
                acc.append(&mut es);
                proof {
                    lemma_entries_model_concat(a, b);
                    match parse_block(ls, q as nat, ind as nat) {
                        Ok((rest, _)) => {
                            assert(entries_model(a) + (entries_model(b) + rest) =~= entries_model(
                                a,
                            ) + entries_model(b) + rest);
                        },
                        Err(_) => {},
                    }
                }
                p = q;
            },
        }
    }
}

fn parse_item_exec(lines: &Vec<String>, pos: usize, ind: usize) -> (r: Result<
    (Vec<YamlEntry>, usize),
    ParseError,
>)
    requires
        pos < lines@.len(),
        ind < usize::MAX,
    ensures
        parsed_as(r, parse_item(lines_model(lines@), pos as nat, ind as nat)),
        r matches Ok((_, q)) ==> pos < q <= lines@.len(),
    decreases lines@.len() - pos, 1nat,
{
    match parse_entry_exec(lines, pos, ind + 1) {
        Err(e) => Err(e),
        Ok((mut first, p)) => match parse_block_exec(lines, p, ind) {
            Err(e) => Err(e),
            Ok((mut rest, q)) => {
                let ghost a = first@;
                let ghost b = rest@;
                first.append(&mut rest);
                proof {
                    lemma_entries_model_concat(a, b);
                }
                Ok((first, q))
            },
        },
    }
}

fn parse_array_exec(lines: &Vec<String>, pos: usize, ind: usize) -> (r: Result<
    (Vec<Vec<YamlEntry>>, usize),
    ParseError,
>)
    requires
        pos <= lines@.len(),
    ensures
        match (r, parse_array(lines_model(lines@), pos as nat, ind as nat)) {
            (Ok((gs, p)), Ok((ms, q))) => groups_model(gs@) == ms && p == q,
            (Err(e), Err(me)) => e@ == me,
            _ => false,
        },
        r matches Ok((_, q)) ==> pos <= q <= lines@.len(),
    decreases lines@.len() - pos, 2nat,
{
    let ghost ls = lines_model(lines@);
    let mut acc: Vec<Vec<YamlEntry>> = Vec::new();
    let mut p = pos;
    assert(groups_model(acc@) + Seq::<Seq<EntryModel>>::empty() =~= Seq::<Seq<EntryModel>>::empty());
    loop
        invariant
            ls == lines_model(lines@),
            pos <= p <= lines@.len(),
            parse_array(ls, pos as nat, ind as nat) == after_groups(
                groups_model(acc@),
                parse_array(ls, p as nat, ind as nat),
            ),
        decreases lines@.len() - p,
    {
        if p >= lines.len() || !is_item_str(lines[p].as_str(), ind) {
            assert(groups_model(acc@) + Seq::<Seq<EntryModel>>::empty() =~= groups_model(acc@));
            return Ok((acc, p));
        }
        assert(ls[p as int] == lines@[p as int]@);
        // the line's length fits in `usize`, which bounds its indentation
        let item_len = lines[p].as_str().unicode_len();
        assert(ind < usize::MAX) by {
            crate::text::lemma_lead_ws(ls[p as int]);
        }
        match parse_item_exec(lines, p, ind) {
            Err(e) => {
                return Err(e);
            },
            Ok((item, q)) => {
                let ghost a = acc@;
                acc.push(item);
                proof {
                    lemma_groups_model_push(a, item);
                    match parse_array(ls, q as nat, ind as nat) {
                        Ok((rest, _)) => {
                            assert(groups_model(a) + (seq![entries_model(item@)] + rest)
                                =~= groups_model(a).push(entries_model(item@)) + rest);
                        },
                        Err(_) => {},
                    }
                }
                p = q;
            },
        }
    }
}


fn word_at<'a>(s: &'a str) -> (r: (&'a str, Option<&'a str>))
    ensures
        r.0@ == first_word(s@),
        match after_word(s@) {
            Some(m) => r.1 matches Some(x) && x@ == m,
            None => r.1 is None,
        },
{
    let n = s.unicode_len();
    match str_find_char(s, ' ') {
        Some(i) => {
            proof {
                lemma_find_char(s@, ' ');
            }
            (s.substring_char(0, i), Some(s.substring_char(i + 1, n)))
        },
        None => {
            (s, None)
        },
    }
}

fn header_exec(line: &str) -> (r: Result<(i64, String), HeaderFault>)
    requires
        starts_with(line@, seq!['-', '-', '-', ' ']),
    ensures
        match header_fields(line@) {
            Ok((c, id)) => r matches Ok((rc, rid)) && rc as int == c && rid@ == id,
            Err(f) => r == Err::<(i64, String), HeaderFault>(f),
        },
{
    let n = line.unicode_len();
    let rest = line.substring_char(4, n);
    let (tag, more) = word_at(rest);
    proof {
        reveal_strlit("!u!");
        assert("!u!"@ =~= seq!['!', 'u', '!']);
    }
    if !str_starts_with(tag, "!u!") {
        return Err(HeaderFault::NoClassPrefix);
    }
    let digits = tag.substring_char(3, tag.unicode_len());
    match parse_i64(digits) {
        None => Err(HeaderFault::BadClassId),
        Some(class_id) => match more {
            None => Err(HeaderFault::NoId),
            Some(m) => {
                let (anchor, _) = word_at(m);
                if !str_starts_with_char(anchor, '&') {
                    Err(HeaderFault::NoIdPrefix)
                } else if anchor.unicode_len() == 1 {
                    Err(HeaderFault::EmptyId)
                } else {
                    Ok((class_id, substring(anchor, 1, anchor.unicode_len())))
                }
            },
        },
    }
}

/// Parses the lines of a file into its documents.
///
/// Lines that start with `%` and blank lines are skipped. A line `--- !u!<class> &<id>`
/// opens a document, the unindented `<Type>:` line that follows names its type, and the
/// indented lines after it are its entries. Lines before the first header belong to no
/// document and are dropped. An empty anchor is a header error.
/// The first malformed line fails the whole parse.
pub fn parse(lines: &Vec<String>) -> (r: Result<Vec<UnityObject>, ParseError>)
    ensures
        match parse_model(lines_model(lines@)) {
            Ok(docs) => r matches Ok(v) && docs_model(v@) == docs,
            Err(e) => r matches Err(err) && err@ == e,
        },
{
    let ghost ls = lines_model(lines@);
    let len = lines.len();
    let mut done: Vec<UnityObject> = Vec::new();
    let mut cur = UnityObject {
        id: String::new(),
        class_id: 0,
        object_type_name: String::new(),
        entries: Vec::new(),
    };
    let mut pos: usize = 0;
    proof {
        reveal_strlit("--- ");
        assert("--- "@ =~= seq!['-', '-', '-', ' ']);
        assert(docs_model(done@) =~= Seq::<DocModel>::empty());
        assert(cur@ == DocModel {
            id: Seq::empty(),
            class_id: 0,
            kind_name: Seq::empty(),
            entries: Seq::empty(),
        });
    }
    while pos < len
        invariant
            ls == lines_model(lines@),
            len == lines@.len(),
            pos <= len,
            "--- "@ == seq!['-', '-', '-', ' '],
            parse_model(ls) == parse_docs(ls, pos as nat, cur@, docs_model(done@)),
        decreases len - pos,
    {
        let line = lines[pos].as_str();
        assert(ls[pos as int] == line@);
        if str_starts_with_char(line, '%') || str_is_blank(line) {
            pos = pos + 1;
        } else if str_starts_with(line, "--- ") {
            match header_exec(line) {
                Err(f) => {
                    return Err(ParseError::Header { line: line.to_string(), fault: f });
                },
                Ok((class_id, id)) => {
                    let fresh = UnityObject {
                        id,
                        class_id,
                        object_type_name: String::new(),
                        entries: Vec::new(),
                    };
                    assert(entries_model(fresh.entries@) =~= Seq::<EntryModel>::empty());
                    let ghost d = done@;
                    if cur.id.as_str().unicode_len() > 0 {
                        done.push(cur);
                        assert(docs_model(done@) =~= docs_model(d).push(cur@));
                    }
                    cur = fresh;
                    pos = pos + 1;
                },
            }
        } else if count_indents(line) == 0 {
            match str_find_char(line, ':') {
                None => {
                    return Err(ParseError::MissingColon { line: line.to_string() });
                },
                Some(c) => {
                    proof {
                        lemma_find_char(line@, ':');
                    }
                    let ghost prev = cur@;
                    cur.object_type_name = substring(line, 0, c);
                    cur.entries = Vec::new();
                    assert(entries_model(cur.entries@) =~= Seq::<EntryModel>::empty());
                    assert(cur@ == DocModel {
                        kind_name: line@.take(c as int),
                        entries: Seq::empty(),
                        ..prev
                    });
                    pos = pos + 1;
                },
            }
        } else {
            let ind = count_indents(line);
            match parse_entry_exec(lines, pos, ind) {
                Err(e) => {
                    return Err(e);
                },
                Ok((mut es, q)) => {
                    let ghost a = cur.entries@;
                    let ghost b = es@;
                    cur.entries.append(&mut es);
                    proof {
                        lemma_entries_model_concat(a, b);
                    }
                    pos = q;
                },
            }
        }
    }
    let ghost d = done@;
    if cur.id.as_str().unicode_len() > 0 {
        done.push(cur);
        assert(docs_model(done@) =~= docs_model(d).push(cur@));
    }
    Ok(done)
}


proof fn lemma_find_char_at(s: Seq<char>, c: char, i: int)
    requires
        0 <= i < s.len(),
        s[i] == c,
        forall|j: int| 0 <= j < i ==> s[j] != c,
    ensures
        find_char(s, c) == Some(i as nat),
{
    lemma_find_char(s, c);
}

proof fn lemma_find_char_absent(s: Seq<char>, c: char)
    requires
        forall|j: int| 0 <= j < s.len() ==> s[j] != c,
    ensures
        find_char(s, c) is None,
{
    lemma_find_char(s, c);
}

proof fn lemma_lead_ws_space(v: Seq<char>)
    ensures
        lead_ws(seq![' '] + v) == 1 + lead_ws(v),
{
    assert((seq![' '] + v).drop_first() =~= v);
}

proof fn lemma_not_starts_with(s: Seq<char>, p: Seq<char>)
    requires
        s.len() > 0,
        p.len() > 0,
        s[0] != p[0],
    ensures
        !starts_with(s, p),
{
    if p.len() <= s.len() {
        assert(s.take(p.len() as int)[0] != p[0]);
    }
}

proof fn lemma_header_line(class_text: Seq<char>, class_id: int, id: Seq<char>)
    requires
        int_literal_value(class_text) == Some(class_id),
        id.len() > 0,
        forall|j: int| 0 <= j < id.len() ==> id[j] != ' ',
    ensures
        ({
            let h = seq!['-', '-', '-', ' ', '!', 'u', '!'] + class_text + seq![' ', '&'] + id;
            &&& !starts_with(h, seq!['%'])
            &&& !is_blank(h)
            &&& starts_with(h, seq!['-', '-', '-', ' '])
            &&& header_fields(h) == Ok::<(int, Seq<char>), HeaderFault>((class_id, id))
        }),
{
    let h = seq!['-', '-', '-', ' ', '!', 'u', '!'] + class_text + seq![' ', '&'] + id;
    let body = crate::number::unsigned_part(class_text);
    assert forall|j: int| 0 <= j < class_text.len() implies class_text[j] != ' ' by {
        if class_text[0] == '-' || class_text[0] == '+' {
            if j > 0 {
                assert(class_text[j] == body[j - 1]);
                assert(crate::number::is_digit(body[j - 1]));
            }
        } else {
            assert(crate::number::is_digit(body[j]));
        }
    }
    lemma_not_starts_with(h, seq!['%']);
    assert(!is_blank(h));
    assert(h.take(4) =~= seq!['-', '-', '-', ' ']);
    let rest = h.skip(4);
    assert(rest =~= seq!['!', 'u', '!'] + class_text + seq![' ', '&'] + id);
    let sp: int = 3 + class_text.len() as int;
    assert(rest[sp] == ' ');
    assert forall|j: int| 0 <= j < sp implies rest[j] != ' ' by {
        if j >= 3 {
            assert(rest[j] == class_text[j - 3]);
        }
    }
    lemma_find_char_at(rest, ' ', sp);
    let tag = first_word(rest);
    assert(tag =~= seq!['!', 'u', '!'] + class_text);
    assert(tag.take(3) =~= seq!['!', 'u', '!']);
    assert(tag.skip(3) =~= class_text);
    let more = rest.skip(sp + 1);
    assert(more =~= seq!['&'] + id);
    assert forall|j: int| 0 <= j < more.len() implies more[j] != ' ' by {
        if j > 0 {
            assert(more[j] == id[j - 1]);
        }
    }
    lemma_find_char_absent(more, ' ');
    assert(first_word(more) == more);
    assert(more.take(1) =~= seq!['&']);
    assert(more.drop_first() =~= id);
}

proof fn lemma_type_line(kind: Seq<char>)
    requires
        kind.len() > 0,
        !is_ws(kind[0]),
        kind[0] != '%',
        !starts_with(kind, seq!['-', '-', '-', ' ']),
        forall|j: int| 0 <= j < kind.len() ==> kind[j] != ':',
    ensures
        ({
            let tl = kind + seq![':'];
            &&& !starts_with(tl, seq!['%'])
            &&& !is_blank(tl)
            &&& !starts_with(tl, seq!['-', '-', '-', ' '])
            &&& indent_of(tl) == 0
            &&& find_char(tl, ':') == Some(kind.len())
            &&& tl.take(kind.len() as int) == kind
        }),
{
    let tl = kind + seq![':'];
    assert(tl[0] == kind[0]);
    lemma_not_starts_with(tl, seq!['%']);
    let hd = seq!['-', '-', '-', ' '];
    assert(!starts_with(tl, hd)) by {
        if starts_with(tl, hd) {
            if kind.len() >= 4 {
                assert(kind.take(4) =~= tl.take(4));
            } else {
                assert(tl.take(4)[kind.len() as int] == tl[kind.len() as int]);
                assert(tl[kind.len() as int] == ':');
            }
        }
    }
    assert(lead_ws(tl) == 0);
    assert forall|j: int| 0 <= j < kind.len() implies tl[j] != ':' by {
        assert(tl[j] == kind[j]);
    }
    lemma_find_char_at(tl, ':', kind.len() as int);
    assert(tl.take(kind.len() as int) =~= kind);
}

pub proof fn lemma_entry_line(key: Seq<char>, v: Seq<char>)
    requires
        key.len() > 0,
        !is_ws(key[0]),
        forall|j: int| 0 <= j < key.len() ==> key[j] != ':',
        v.len() > 0,
        !is_ws(v[0]),
        !starts_with(v, seq!['-', ' ']),
    ensures
        ({
            let el = seq![' ', ' '] + key + seq![':', ' '] + v;
            &&& !starts_with(el, seq!['%'])
            &&& !is_blank(el)
            &&& !starts_with(el, seq!['-', '-', '-', ' '])
            &&& indent_of(el) == 1
            &&& split_entry(el, 1) == Ok::<(Seq<char>, Seq<char>), ErrorModel>((key, seq![' '] + v))
            &&& value_text(seq![' '] + v) == v
        }),
{
    let el = seq![' ', ' '] + key + seq![':', ' '] + v;
    lemma_not_starts_with(el, seq!['%']);
    lemma_not_starts_with(el, seq!['-', '-', '-', ' ']);
    let tail = key + seq![':', ' '] + v;
    assert(el.drop_first() =~= seq![' '] + tail);
    assert((seq![' '] + tail).drop_first() =~= tail);
    assert(tail[0] == key[0]);
    assert(lead_ws(tail) == 0);
    lemma_lead_ws_space(tail);
    lemma_lead_ws_space(seq![' '] + tail);
    assert(el =~= seq![' '] + (seq![' '] + tail));
    assert(lead_ws(el) == 2);
    let c: int = 2 + key.len() as int;
    assert(el[c] == ':');
    assert forall|j: int| 0 <= j < c implies el[j] != ':' by {
        if j >= 2 {
            assert(el[j] == key[j - 2]);
        }
    }
    lemma_find_char_at(el, ':', c);
    let two = el.take(2);
    assert(two =~= seq![' ', ' ']);
    assert(!ends_with(two, seq!['-', ' '])) by {
        assert(two.skip(0)[0] != seq!['-', ' '][0]);
    }
    assert(el.subrange(2, c) =~= key);
    let after = el.skip(c + 1);
    assert(after =~= seq![' '] + v);
    assert(after != seq![' ']) by {
        assert(after.len() != 1);
    }
    lemma_lead_ws_space(v);
    assert(lead_ws(v) == 0);
    assert(trim_start(after) =~= v);
}

/// A document of three lines, `--- !u!<N> &<id>`, `<T>:` and `  <k>: <v>`, parses as
/// one document: class tag `N`, anchor `id`, type `T`, and one entry `k` whose value is
/// `v` read as a plain scalar.
pub proof fn lemma_single_document(
    class_text: Seq<char>,
    class_id: int,
    id: Seq<char>,
    kind: Seq<char>,
    key: Seq<char>,
    v: Seq<char>,
)
    requires
        int_literal_value(class_text) == Some(class_id),
        id.len() > 0,
        forall|j: int| 0 <= j < id.len() ==> id[j] != ' ',
        kind.len() > 0,
        !is_ws(kind[0]),
        kind[0] != '%',
        !starts_with(kind, seq!['-', '-', '-', ' ']),
        forall|j: int| 0 <= j < kind.len() ==> kind[j] != ':',
        key.len() > 0,
        !is_ws(key[0]),
        forall|j: int| 0 <= j < key.len() ==> key[j] != ':',
        v.len() > 0,
        !is_ws(v[0]),
        v[0] != '{' && v[0] != '"' && v[0] != '\'',
        !starts_with(v, seq!['-', ' ']),
    ensures
        parse_model(
            seq![
                seq!['-', '-', '-', ' ', '!', 'u', '!'] + class_text + seq![' ', '&'] + id,
                kind + seq![':'],
                seq![' ', ' '] + key + seq![':', ' '] + v,
            ],
        ) == Ok::<Seq<DocModel>, ErrorModel>(
            seq![
                DocModel {
                    id,
                    class_id,
                    kind_name: kind,
                    entries: seq![EntryModel { key, value: scalar_model(v) }],
                },
            ],
        ),
{
    let h = seq!['-', '-', '-', ' ', '!', 'u', '!'] + class_text + seq![' ', '&'] + id;
    let tl = kind + seq![':'];
    let el = seq![' ', ' '] + key + seq![':', ' '] + v;
    let ls = seq![h, tl, el];
    lemma_entry_line(key, v);
    let e = EntryModel { key, value: scalar_model(v) };
    assert(ls[2] == el);
    assert(parse_entry(ls, 2, 1) == Ok::<(Seq<EntryModel>, nat), ErrorModel>((seq![e], 3)));
    lemma_document_with_entry(class_text, class_id, id, kind, key, v, e);
}

/// A document of three lines, `--- !u!<N> &<id>`, `<T>:` and `  <k>: <v>`, whose entry
/// line parses as the entry `e`, parses as one document with that entry.
pub proof fn lemma_document_with_entry(
    class_text: Seq<char>,
    class_id: int,
    id: Seq<char>,
    kind: Seq<char>,
    key: Seq<char>,
    v: Seq<char>,
    e: EntryModel,
)
    requires
        int_literal_value(class_text) == Some(class_id),
        id.len() > 0,
        forall|j: int| 0 <= j < id.len() ==> id[j] != ' ',
        kind.len() > 0,
        !is_ws(kind[0]),
        kind[0] != '%',
        !starts_with(kind, seq!['-', '-', '-', ' ']),
        forall|j: int| 0 <= j < kind.len() ==> kind[j] != ':',
        key.len() > 0,
        !is_ws(key[0]),
        forall|j: int| 0 <= j < key.len() ==> key[j] != ':',
        v.len() > 0,
        !is_ws(v[0]),
        !starts_with(v, seq!['-', ' ']),
        parse_entry(
            seq![
                seq!['-', '-', '-', ' ', '!', 'u', '!'] + class_text + seq![' ', '&'] + id,
                kind + seq![':'],
                seq![' ', ' '] + key + seq![':', ' '] + v,
            ],
            2,
            1,
        ) == Ok::<(Seq<EntryModel>, nat), ErrorModel>((seq![e], 3)),
    ensures
        parse_model(
            seq![
                seq!['-', '-', '-', ' ', '!', 'u', '!'] + class_text + seq![' ', '&'] + id,
                kind + seq![':'],
                seq![' ', ' '] + key + seq![':', ' '] + v,
            ],
        ) == Ok::<Seq<DocModel>, ErrorModel>(
            seq![DocModel { id, class_id, kind_name: kind, entries: seq![e] }],
        ),
{
    let h = seq!['-', '-', '-', ' ', '!', 'u', '!'] + class_text + seq![' ', '&'] + id;
    let tl = kind + seq![':'];
    let el = seq![' ', ' '] + key + seq![':', ' '] + v;
    let ls = seq![h, tl, el];
    let init = DocModel {
        id: Seq::empty(),
        class_id: 0,
        kind_name: Seq::empty(),
        entries: Seq::empty(),
    };
    lemma_header_line(class_text, class_id, id);
    lemma_type_line(kind);
    lemma_entry_line(key, v);
    let d1 = DocModel { id, class_id, kind_name: Seq::empty(), entries: Seq::empty() };
    assert(close_doc(Seq::empty(), init) == Seq::<DocModel>::empty());
    assert(ls[0] == h);
    assert(parse_docs(ls, 0, init, Seq::empty()) == parse_docs(ls, 1, d1, Seq::empty()));
    let d2 = DocModel { id, class_id, kind_name: kind, entries: Seq::empty() };
    assert(ls[1] == tl);
    assert(parse_docs(ls, 1, d1, Seq::empty()) == parse_docs(ls, 2, d2, Seq::empty()));
    assert(ls[2] == el);
    let d3 = DocModel { id, class_id, kind_name: kind, entries: seq![e] };
    assert(d2.entries + seq![e] =~= seq![e]);
    assert(parse_docs(ls, 2, d2, Seq::empty()) == parse_docs(ls, 3, d3, Seq::empty()));
    assert(parse_docs(ls, 3, d3, Seq::empty()) == Ok::<Seq<DocModel>, ErrorModel>(seq![d3]));
}

/// A decimal integer literal that writes back with as many characters reads as that
/// integer, in the entry of a document as [`lemma_single_document`] has it.
pub proof fn lemma_integer_literal_entry(
    class_text: Seq<char>,
    class_id: int,
    id: Seq<char>,
    kind: Seq<char>,
    key: Seq<char>,
    v: Seq<char>,
    i: int,
)
    requires
        int_literal_value(class_text) == Some(class_id),
        id.len() > 0,
        forall|j: int| 0 <= j < id.len() ==> id[j] != ' ',
        kind.len() > 0,
        !is_ws(kind[0]),
        kind[0] != '%',
        !starts_with(kind, seq!['-', '-', '-', ' ']),
        forall|j: int| 0 <= j < kind.len() ==> kind[j] != ':',
        key.len() > 0,
        !is_ws(key[0]),
        forall|j: int| 0 <= j < key.len() ==> key[j] != ':',
        int_literal_value(v) == Some(i),
        v.len() == crate::number::decimal_text(i).len(),
    ensures
        parse_model(
            seq![
                seq!['-', '-', '-', ' ', '!', 'u', '!'] + class_text + seq![' ', '&'] + id,
                kind + seq![':'],
                seq![' ', ' '] + key + seq![':', ' '] + v,
            ],
        ) == Ok::<Seq<DocModel>, ErrorModel>(
            seq![
                DocModel {
                    id,
                    class_id,
                    kind_name: kind,
                    entries: seq![EntryModel { key, value: ValueModel::Int(i) }],
                },
            ],
        ),
{
    let body = crate::number::unsigned_part(v);
    assert(body.len() > 0 && crate::number::all_digits(body));
    if v[0] == '-' || v[0] == '+' {
        assert(body[0] == v[1]);
        assert(crate::number::is_digit(body[0]));
        assert(v.take(2)[1] == v[1]);
    } else {
        assert(crate::number::is_digit(body[0]));
    }
    assert(!starts_with(v, seq!['-', ' ']));
    lemma_single_document(class_text, class_id, id, kind, key, v);
}


/// `line` is an entry line one level in that parses as the entry `e` wherever it stands
/// in a file.
pub open spec fn entry_line_parses(line: Seq<char>, e: EntryModel) -> bool {
    &&& !starts_with(line, seq!['%'])
    &&& !is_blank(line)
    &&& !starts_with(line, seq!['-', '-', '-', ' '])
    &&& indent_of(line) == 1
    &&& forall|ls: Seq<Seq<char>>, p: nat|
        p < ls.len() && ls[p as int] == line ==> #[trigger] parse_entry(ls, p, 1) == Ok::<
            (Seq<EntryModel>, nat),
            ErrorModel,
        >((seq![e], p + 1))
}

proof fn lemma_docs_entries(
    ls: Seq<Seq<char>>,
    lines: Seq<Seq<char>>,
    es: Seq<EntryModel>,
    d: DocModel,
    i: nat,
)
    requires
        ls.len() == 2 + lines.len(),
        forall|k: int| 0 <= k < lines.len() ==> ls[2 + k] == #[trigger] lines[k],
        lines.len() == es.len(),
        i <= lines.len(),
        forall|k: int| 0 <= k < lines.len() ==> entry_line_parses(#[trigger] lines[k], es[k]),
        d.id.len() > 0,
    ensures
        parse_docs(ls, 2 + i, DocModel { entries: es.take(i as int), ..d }, Seq::empty()) == Ok::<
            Seq<DocModel>,
            ErrorModel,
        >(seq![DocModel { entries: es, ..d }]),
    decreases lines.len() - i,
{
    let cur = DocModel { entries: es.take(i as int), ..d };
    if i == lines.len() {
        assert(es.take(i as int) =~= es);
    } else {
        let line = lines[i as int];
        assert(ls[2 + i as int] == line);
        assert(entry_line_parses(line, es[i as int]));
        let p: nat = 2 + i;
        assert(parse_entry(ls, p, 1) == Ok::<(Seq<EntryModel>, nat), ErrorModel>((seq![es[i as int]], p + 1)));
        assert(es.take(i as int) + seq![es[i as int]] =~= es.take(i + 1int));
        lemma_docs_entries(ls, lines, es, d, i + 1);
        assert(parse_docs(ls, p, cur, Seq::empty()) == parse_docs(
            ls,
            p + 1,
            DocModel { entries: es.take(i + 1int), ..d },
            Seq::empty(),
        ));
    }
}

/// A document of a header `--- !u!<N> &<id>`, a type line `<T>:` and entry lines, each
/// of which parses as its entry wherever it stands, parses as one document with those
/// entries in order.
pub proof fn lemma_document_with_entries(
    class_text: Seq<char>,
    class_id: int,
    id: Seq<char>,
    kind: Seq<char>,
    lines: Seq<Seq<char>>,
    es: Seq<EntryModel>,
)
    requires
        int_literal_value(class_text) == Some(class_id),
        id.len() > 0,
        forall|j: int| 0 <= j < id.len() ==> id[j] != ' ',
        kind.len() > 0,
        !is_ws(kind[0]),
        kind[0] != '%',
        !starts_with(kind, seq!['-', '-', '-', ' ']),
        forall|j: int| 0 <= j < kind.len() ==> kind[j] != ':',
        lines.len() == es.len(),
        forall|k: int| 0 <= k < lines.len() ==> entry_line_parses(#[trigger] lines[k], es[k]),
    ensures
        parse_model(
            seq![
                seq!['-', '-', '-', ' ', '!', 'u', '!'] + class_text + seq![' ', '&'] + id,
                kind + seq![':'],
            ] + lines,
        ) == Ok::<Seq<DocModel>, ErrorModel>(
            seq![DocModel { id, class_id, kind_name: kind, entries: es }],
        ),
{
    let h = seq!['-', '-', '-', ' ', '!', 'u', '!'] + class_text + seq![' ', '&'] + id;
    let tl = kind + seq![':'];
    let ls = seq![h, tl] + lines;
    let init = DocModel {
        id: Seq::empty(),
        class_id: 0,
        kind_name: Seq::empty(),
        entries: Seq::empty(),
    };
    lemma_header_line(class_text, class_id, id);
    lemma_type_line(kind);
    let d1 = DocModel { id, class_id, kind_name: Seq::empty(), entries: Seq::empty() };
    assert(close_doc(Seq::empty(), init) == Seq::<DocModel>::empty());
    assert(ls[0] == h);
    assert(parse_docs(ls, 0, init, Seq::empty()) == parse_docs(ls, 1, d1, Seq::empty()));
    let d2 = DocModel { id, class_id, kind_name: kind, entries: Seq::empty() };
    assert(ls[1] == tl);
    assert(parse_docs(ls, 1, d1, Seq::empty()) == parse_docs(ls, 2, d2, Seq::empty()));
    assert forall|k: int| 0 <= k < lines.len() implies ls[2 + k] == #[trigger] lines[k] by {}
    assert(es.take(0) =~= Seq::<EntryModel>::empty());
    assert(DocModel { entries: es.take(0), ..d2 } == d2);
    lemma_docs_entries(ls, lines, es, d2, 0);
}

} // verus!
