use vstd::prelude::*;
use crate::number::{
    all_digits, decimal_text, digit_char, digit_value, digits_of, digits_value, int_literal_value,
    int_to_string, is_float_text, unsigned_part,
};
use crate::value::scalar_model;
use crate::parser::{
    ErrorModel, find_sep, flow_collect, flow_entries, inline_entries, lemma_document_with_entry,
    entry_line_parses, lemma_document_with_entries, lemma_entry_line, lemma_find_sep,
    lemma_single_document, parse_entry, parse_model, split_entry,
    value_text,
};
use crate::value::DocModel as Doc;
use crate::text::{is_ws, lead_ws, starts_with, trim_start};
use crate::text::{ends_with, find_char, lemma_find_char, str_find_char, substring};
use crate::value::{
    DocModel, YamlEntry, EntryModel, UnityObject, YamlValue, ValueModel, entries_model, groups_model,
    lemma_entries_model_index, lemma_entries_model_len, lemma_groups_model_index,
    lemma_groups_model_len,
};

verus! {

/// Two spaces per level.
pub open spec fn spaces(n: nat) -> Seq<char> {
    Seq::new(2 * n, |i: int| ' ')
}

/// `l` without one trailing carriage return.
pub open spec fn strip_cr(l: Seq<char>) -> Seq<char> {
    if ends_with(l, seq!['\r']) {
        l.drop_last()
    } else {
        l
    }
}

/// The lines of `s`: split at each line feed, a carriage return before it dropped; the
/// last line feed ends the last line rather than opening another.
pub open spec fn lines_of(s: Seq<char>) -> Seq<Seq<char>>
    decreases s.len(),
{
    if s.len() == 0 {
        Seq::empty()
    } else {
        match find_char(s, '\n') {
            None => seq![s],
            Some(i) => {
                proof {
                    lemma_find_char(s, '\n');
                }
                seq![strip_cr(s.take(i as int))] + lines_of(s.skip(i + 1int))
            },
        }
    }
}

/// Whether `l` holds a backslash followed by `n` or `r`.
pub open spec fn has_escape(l: Seq<char>) -> bool {
    exists|i: int| 0 <= i < l.len() - 1 && #[trigger] l[i] == '\\' && (l[i + 1] == 'n' || l[i + 1] == 'r')
}

/// `parts` joined by `sep`.
pub open spec fn join(parts: Seq<Seq<char>>, sep: Seq<char>) -> Seq<char>
    decreases parts.len(),
{
    if parts.len() == 0 {
        Seq::empty()
    } else if parts.len() == 1 {
        parts[0]
    } else {
        join(parts.drop_last(), sep) + sep + parts.last()
    }
}

/// A string value as text: as it is where it has one line; otherwise quoted, its lines
/// joined by CR LF and the indentation, in double quotes where a line holds `\n` or `\r`
/// escapes and single quotes else.
pub open spec fn str_text(s: Seq<char>, indent: nat) -> Seq<char> {
    let ls = lines_of(s);
    if ls.len() <= 1 {
        s
    } else {
        let body = join(ls, seq!['\r', '\n'] + spaces(indent));
        if exists|i: int| 0 <= i < ls.len() && has_escape(#[trigger] ls[i]) {
            seq!['"'] + body + seq!['"']
        } else {
            seq!['\''] + body + seq!['\'']
        }
    }
}

/// A key and its separator, or nothing for an empty key.
pub open spec fn key_text(key: Seq<char>) -> Seq<char> {
    if key.len() == 0 {
        Seq::empty()
    } else {
        key + seq![':', ' ']
    }
}

/// A value as dialect text, its nested lines at indentation `indent`.
pub open spec fn value_text_of(v: ValueModel, indent: nat) -> Seq<char>
    decreases v, 0nat,
{
    match v {
        ValueModel::Int(i) => decimal_text(i),
        ValueModel::Float(s) => s,
        ValueModel::Str(s) => str_text(s, indent),
        ValueModel::Object(es) => seq!['{'] + join(flow_parts(es), seq![',', ' ']) + seq!['}'],
        ValueModel::Entries(es) => seq!['\n'] + join(entry_lines(es, indent), seq!['\n']),
        ValueModel::Array(gs) => seq!['\n'] + join(group_texts(gs, indent), seq!['\n']),
    }
}

/// The `key: value` parts of a flow mapping.
pub open spec fn flow_parts(es: Seq<EntryModel>) -> Seq<Seq<char>>
    decreases es, 0nat,
{
    if es.len() == 0 {
        Seq::empty()
    } else {
        flow_parts(es.drop_last()).push(
            es.last().key + seq![':', ' '] + value_text_of(es.last().value, 0),
        )
    }
}

/// An entry as a line at indentation `indent`.
pub open spec fn entry_text(e: EntryModel, indent: nat) -> Seq<char>
    decreases e, 0nat,
{
    spaces(indent) + key_text(e.key) + value_text_of(e.value, indent + 1)
}

/// The first entry of a sequence item, after its dash.
pub open spec fn item_first_text(e: EntryModel, indent: nat) -> Seq<char>
    decreases e, 0nat,
{
    spaces(indent) + seq!['-', ' '] + key_text(e.key) + value_text_of(e.value, indent + 1)
}

pub open spec fn entry_lines(es: Seq<EntryModel>, indent: nat) -> Seq<Seq<char>>
    decreases es, 0nat,
{
    if es.len() == 0 {
        Seq::empty()
    } else {
        entry_lines(es.drop_last(), indent).push(entry_text(es.last(), indent))
    }
}

/// A sequence item: its first entry after a dash, the others one level deeper.
pub open spec fn group_text(g: Seq<EntryModel>, indent: nat) -> Seq<char>
    decreases g, 1nat,
{
    if g.len() == 0 {
        Seq::empty()
    } else {
        join(
            seq![item_first_text(g[0], indent)] + entry_lines(g.drop_first(), indent + 1),
            seq!['\n'],
        )
    }
}

pub open spec fn group_texts(gs: Seq<Seq<EntryModel>>, indent: nat) -> Seq<Seq<char>>
    decreases gs, 0nat,
{
    if gs.len() == 0 {
        Seq::empty()
    } else {
        group_texts(gs.drop_last(), indent).push(group_text(gs.last(), indent))
    }
}


/// How many levels deeper than its own the text of a value reaches.
pub open spec fn depth(v: ValueModel) -> nat
    decreases v, 1nat,
{
    match v {
        ValueModel::Int(_) | ValueModel::Float(_) | ValueModel::Str(_) => 0,
        ValueModel::Object(es) | ValueModel::Entries(es) => 1 + entries_depth(es),
        ValueModel::Array(gs) => 2 + groups_depth(gs),
    }
}

pub open spec fn entries_depth(es: Seq<EntryModel>) -> nat
    decreases es, 0nat,
{
    if es.len() == 0 {
        0
    } else {
        let a = entries_depth(es.drop_last());
        let b = depth(es.last().value);
        if a >= b {
            a
        } else {
            b
        }
    }
}

pub open spec fn groups_depth(gs: Seq<Seq<EntryModel>>) -> nat
    decreases gs, 0nat,
{
    if gs.len() == 0 {
        0
    } else {
        let a = groups_depth(gs.drop_last());
        let b = entries_depth(gs.last());
        if a >= b {
            a
        } else {
            b
        }
    }
}

proof fn lemma_entries_depth(es: Seq<EntryModel>, i: int)
    requires
        0 <= i < es.len(),
    ensures
        depth(es[i].value) <= entries_depth(es),
    decreases es.len(),
{
    if i < es.len() - 1 {
        lemma_entries_depth(es.drop_last(), i);
    }
}

proof fn lemma_groups_depth(gs: Seq<Seq<EntryModel>>, i: int)
    requires
        0 <= i < gs.len(),
    ensures
        entries_depth(gs[i]) <= groups_depth(gs),
    decreases gs.len(),
{
    if i < gs.len() - 1 {
        lemma_groups_depth(gs.drop_last(), i);
    }
}

fn push_spaces(out: &mut String, n: usize)
    ensures
        final(out)@ == old(out)@ + spaces(n as nat),
{
    let mut k: usize = 0;
    proof {
        reveal_strlit("  ");
    }
    assert(old(out)@ + spaces(0) =~= old(out)@);
    while k < n
        invariant
            k <= n,
            "  "@ == seq![' ', ' '],
            out@ == old(out)@ + spaces(k as nat),
        decreases n - k,
    {
        out.append("  ");
        assert(out@ =~= old(out)@ + spaces((k + 1) as nat));
        k = k + 1;
    }
}

/// `parts` joined by `sep`.
pub fn join_exec(parts: &Vec<String>, sep: &str) -> (r: String)
    ensures
        r@ == join(parts@.map_values(|p: String| p@), sep@),
{
    let ghost pm = parts@.map_values(|p: String| p@);
    let mut out = String::new();
    let mut i: usize = 0;
    while i < parts.len()
        invariant
            pm == parts@.map_values(|p: String| p@),
            i <= parts@.len(),
            out@ == join(pm.take(i as int), sep@),
        decreases parts@.len() - i,
    {
        assert(pm.take(i + 1int).drop_last() =~= pm.take(i as int));
        assert(pm.take(i + 1int).last() == parts@[i as int]@);
        if i > 0 {
            out.append(sep);
        } else {
            assert(pm.take(1) =~= seq![parts@[0]@]);
        }
        out.append(parts[i].as_str());
        i = i + 1;
    }
    assert(pm.take(i as int) =~= pm);
    out
}

/// The lines of `s`.
fn lines_exec(s: &str) -> (r: Vec<String>)
    ensures
        r@.map_values(|l: String| l@) == lines_of(s@),
{
    let n = s.unicode_len();
    let mut out: Vec<String> = Vec::new();
    let mut pos: usize = 0;
    assert(s@.skip(0) =~= s@);
    assert(out@.map_values(|l: String| l@) + lines_of(s@) =~= lines_of(s@));
    while pos < n
        invariant
            n == s@.len(),
            pos <= n,
            lines_of(s@) == out@.map_values(|l: String| l@) + lines_of(s@.skip(pos as int)),
        decreases n - pos,
    {
        let rest = s.substring_char(pos, n);
        assert(rest@ =~= s@.skip(pos as int));
        let ghost before = out@;
        proof {
            lemma_find_char(rest@, '\n');
        }
        match str_find_char(rest, '\n') {
            None => {
                out.push(rest.to_string());
                assert(out@.map_values(|l: String| l@) =~= before.map_values(|l: String| l@).push(rest@));
                assert(s@.skip(n as int) =~= Seq::<char>::empty());
                assert(lines_of(s@.skip(pos as int)) == seq![rest@]);
                assert(lines_of(s@) =~= out@.map_values(|l: String| l@) + lines_of(s@.skip(n as int)));
                pos = n;
            },
            Some(i) => {
                let m = rest.unicode_len();
                let cut = if i > 0 && rest.get_char(i - 1) == '\r' {
                    i - 1
                } else {
                    i
                };
                let line = substring(rest, 0, cut);
                assert(line@ == strip_cr(rest@.take(i as int))) by {
                    if i > 0 {
                        assert(rest@.take(i as int).skip(i - 1)[0] == rest@[i - 1]);
                        if rest@[i - 1] == '\r' {
                            assert(rest@.take(i as int).skip(i - 1) =~= seq!['\r']);
                        }
                    }
                    if i > 0 {
                        assert(rest@.take(i as int).drop_last() =~= rest@.subrange(0, i - 1));
                    }
                }
                out.push(line);
                assert(rest@.skip(i + 1int) =~= s@.skip(pos + i + 1));
                assert(out@.map_values(|l: String| l@) =~= before.map_values(|l: String| l@).push(line@));
                assert(lines_of(s@) =~= out@.map_values(|l: String| l@) + lines_of(s@.skip(pos + i + 1)));
                pos = pos + i + 1;
            },
        }
    }
    assert(s@.skip(n as int) =~= Seq::<char>::empty());
    assert(out@.map_values(|l: String| l@) + Seq::<Seq<char>>::empty() =~= out@.map_values(|l: String| l@));
    out
}

fn line_has_escape(l: &str) -> (r: bool)
    ensures
        r == has_escape(l@),
{
    let n = l.unicode_len();
    if n < 2 {
        return false;
    }
    let mut i: usize = 0;
    while i + 1 < n
        invariant
            n == l@.len(),
            n >= 2,
            i + 1 <= n,
            forall|k: int| 0 <= k < i ==> !(#[trigger] l@[k] == '\\' && (l@[k + 1] == 'n' || l@[k + 1] == 'r')),
        decreases n - i,
    {
        let c = l.get_char(i);
        let d = l.get_char(i + 1);
        if c == '\\' && (d == 'n' || d == 'r') {
            return true;
        }
        i = i + 1;
    }
    false
}

/// A string value as text at indentation `indent`.
pub fn str_to_text(s: &str, indent: usize) -> (r: String)
    ensures
        r@ == str_text(s@, indent as nat),
{
    let ls = lines_exec(s);
    let ghost lm = ls@.map_values(|l: String| l@);
    if ls.len() <= 1 {
        return s.to_string();
    }
    let mut sep = String::new();
    proof {
        reveal_strlit("\r\n");
        reveal_strlit("'");
        reveal_strlit("\"");
    }
    sep.append("\r\n");
    push_spaces(&mut sep, indent);
    assert(sep@ =~= seq!['\r', '\n'] + spaces(indent as nat));
    let body = join_exec(&ls, sep.as_str());
    let mut escaped = false;
    let mut i: usize = 0;
    while i < ls.len()
        invariant
            lm == ls@.map_values(|l: String| l@),
            i <= ls@.len(),
            escaped == exists|k: int| 0 <= k < i && has_escape(#[trigger] lm[k]),
        decreases ls@.len() - i,
    {
        let e = line_has_escape(ls[i].as_str());
        assert(lm[i as int] == ls@[i as int]@);
        escaped = escaped || e;
        i = i + 1;
    }
    let mut out = String::new();
    if escaped {
        out.append("\"");
        out.append(body.as_str());
        out.append("\"");
    } else {
        out.append("'");
        out.append(body.as_str());
        out.append("'");
    }
    out
}


impl YamlValue {
    /// The value as dialect text, its nested lines at indentation `indent`.
    pub fn to_indented_string(&self, indent: usize) -> (r: String)
        requires
            indent + depth(self@) < usize::MAX,
        ensures
            r@ == value_text_of(self@, indent as nat),
        decreases self,
    {
        match self {
            YamlValue::Int(i) => int_to_string(*i),
            YamlValue::Float(f) => f.clone(),
            YamlValue::Str(s) => str_to_text(s.as_str(), indent),
            YamlValue::Object(o) => {
                let ghost em = entries_model(o@);
                proof {
                    lemma_entries_model_len(o@);
                    reveal_strlit(": ");
                    reveal_strlit(", ");
                    reveal_strlit("{");
                    reveal_strlit("}");
                }
                let mut parts: Vec<String> = Vec::new();
                let mut i: usize = 0;
                while i < o.len()
                    invariant
                        em == entries_model(o@),
                        em.len() == o@.len(),
                        indent + depth(self@) < usize::MAX,
                        self@ == ValueModel::Object(em),
                        *self == YamlValue::Object(*o),
                        ": "@ == seq![':', ' '],
                        i <= o@.len(),
                        parts@.map_values(|p: String| p@) == flow_parts(em.take(i as int)),
                    decreases o@.len() - i,
                {
                    proof {
                        lemma_entries_model_index(o@, i as int);
                        lemma_entries_depth(em, i as int);
                        assert(em.take(i + 1int).drop_last() =~= em.take(i as int));
                        assert(decreases_to!(self => o@[i as int])) by {
                            assert(decreases_to!(o => o@));
                        }
                    }
                    let e = &o[i];
                    let mut part = e.key.clone();
                    part.append(": ");
                    let v = e.value.to_indented_string(0);
                    part.append(v.as_str());
                    let ghost before = parts@;
                    parts.push(part);
                    assert(parts@.map_values(|p: String| p@) =~= before.map_values(|p: String| p@).push(part@));
                    i = i + 1;
                }
                assert(em.take(i as int) =~= em);
                let mut out = String::new();
                out.append("{");
                let body = join_exec(&parts, ", ");
                out.append(body.as_str());
                out.append("}");
                assert(", "@ =~= seq![',', ' ']);
                assert(out@ =~= seq!['{'] + join(flow_parts(em), seq![',', ' ']) + seq!['}']);
                out
            },
            YamlValue::Entries(es) => {
                let ghost em = entries_model(es@);
                proof {
                    lemma_entries_model_len(es@);
                    reveal_strlit("\n");
                }
                let mut parts: Vec<String> = Vec::new();
                let mut i: usize = 0;
                while i < es.len()
                    invariant
                        em == entries_model(es@),
                        em.len() == es@.len(),
                        indent + depth(self@) < usize::MAX,
                        self@ == ValueModel::Entries(em),
                        *self == YamlValue::Entries(*es),
                        i <= es@.len(),
                        parts@.map_values(|p: String| p@) == entry_lines(em.take(i as int), indent as nat),
                    decreases es@.len() - i,
                {
                    proof {
                        lemma_entries_model_index(es@, i as int);
                        lemma_entries_depth(em, i as int);
                        assert(em.take(i + 1int).drop_last() =~= em.take(i as int));
                        assert(decreases_to!(self => es@[i as int])) by {
                            assert(decreases_to!(es => es@));
                        }
                    }
                    let part = es[i].to_indented_string(indent);
                    let ghost before = parts@;
                    parts.push(part);
                    assert(parts@.map_values(|p: String| p@) =~= before.map_values(|p: String| p@).push(part@));
                    i = i + 1;
                }
                assert(em.take(i as int) =~= em);
                proof {
                    reveal_strlit("\n");
                    assert("\n"@ =~= seq!['\n']);
                }
                let mut out = String::new();
                out.append("\n");
                let body = join_exec(&parts, "\n");
                out.append(body.as_str());
                assert(out@ =~= seq!['\n'] + join(entry_lines(em, indent as nat), seq!['\n']));
                out
            },
            YamlValue::Array(gs) => {
                let ghost gm = groups_model(gs@);
                proof {
                    lemma_groups_model_len(gs@);
                    reveal_strlit("\n");
                }
                let mut parts: Vec<String> = Vec::new();
                let mut i: usize = 0;
                while i < gs.len()
                    invariant
                        gm == groups_model(gs@),
                        gm.len() == gs@.len(),
                        indent + depth(self@) < usize::MAX,
                        self@ == ValueModel::Array(gm),
                        *self == YamlValue::Array(*gs),
                        i <= gs@.len(),
                        parts@.map_values(|p: String| p@) == group_texts(gm.take(i as int), indent as nat),
                    decreases gs@.len() - i,
                {
                    proof {
                        lemma_groups_model_index(gs@, i as int);
                        lemma_groups_depth(gm, i as int);
                        assert(gm.take(i + 1int).drop_last() =~= gm.take(i as int));
                        assert(decreases_to!(self => gs@[i as int])) by {
                            assert(decreases_to!(gs => gs@));
                        }
                    }
                    let part = group_to_text(&gs[i], indent);
                    let ghost before = parts@;
                    parts.push(part);
                    assert(parts@.map_values(|p: String| p@) =~= before.map_values(|p: String| p@).push(part@));
                    i = i + 1;
                }
                assert(gm.take(i as int) =~= gm);
                proof {
                    reveal_strlit("\n");
                    assert("\n"@ =~= seq!['\n']);
                }
                let mut out = String::new();
                out.append("\n");
                let body = join_exec(&parts, "\n");
                out.append(body.as_str());
                assert(out@ =~= seq!['\n'] + join(group_texts(gm, indent as nat), seq!['\n']));
                out
            },
        }
    }
}

fn key_to_text(out: &mut String, key: &String)
    ensures
        final(out)@ == old(out)@ + key_text(key@),
{
    if key.as_str().unicode_len() > 0 {
        proof {
            reveal_strlit(": ");
        }
        out.append(key.as_str());
        out.append(": ");
        assert(final(out)@ =~= old(out)@ + key_text(key@));
    } else {
        assert(old(out)@ + key_text(key@) =~= old(out)@);
    }
}

/// A sequence item as text: its first entry after a dash, the others one level deeper.
fn group_to_text(g: &Vec<YamlEntry>, indent: usize) -> (r: String)
    requires
        indent + 2 + entries_depth(entries_model(g@)) < usize::MAX,
    ensures
        r@ == group_text(entries_model(g@), indent as nat),
    decreases g,
{
    let ghost em = entries_model(g@);
    proof {
        lemma_entries_model_len(g@);
        reveal_strlit("\n");
    }
    if g.len() == 0 {
        return String::new();
    }
    proof {
        lemma_entries_model_index(g@, 0);
        lemma_entries_depth(em, 0);
        assert(decreases_to!(g => g@[0])) by {
            assert(decreases_to!(g => g@));
        }
    }
    let mut parts: Vec<String> = Vec::new();
    parts.push(g[0].to_array_string(indent));
    let ghost rest = em.drop_first();
    let ghost head = parts@.map_values(|p: String| p@);
    let mut i: usize = 1;
    assert(rest.take(0) =~= Seq::<EntryModel>::empty());
    assert(head + entry_lines(rest.take(0), (indent + 1) as nat) =~= head);
    while i < g.len()
        invariant
            em == entries_model(g@),
            em.len() == g@.len(),
            g@.len() > 0,
            rest == em.drop_first(),
            head == seq![item_first_text(em[0], indent as nat)],
            indent + 2 + entries_depth(em) < usize::MAX,
            1 <= i <= g@.len(),
            parts@.map_values(|p: String| p@) == head + entry_lines(rest.take(i - 1), (indent + 1) as nat),
        decreases g@.len() - i,
    {
        proof {
            lemma_entries_model_index(g@, i as int);
            lemma_entries_depth(em, i as int);
            assert(rest.take(i as int).drop_last() =~= rest.take(i - 1));
            assert(rest.take(i as int).last() == em[i as int]);
            assert(decreases_to!(g => g@[i as int])) by {
                assert(decreases_to!(g => g@));
            }
        }
        let part = g[i].to_indented_string(indent + 1);
        let ghost before = parts@;
        parts.push(part);
        assert(parts@.map_values(|p: String| p@) =~= before.map_values(|p: String| p@).push(part@));
        i = i + 1;
    }
    assert(rest.take(i - 1) =~= rest);
    proof {
        reveal_strlit("\n");
        assert("\n"@ =~= seq!['\n']);
        assert(em =~= seq![em[0]] + rest);
    }
    join_exec(&parts, "\n")
}

impl YamlEntry {
    /// The entry as a line at indentation `indent`.
    pub fn to_indented_string(&self, indent: usize) -> (r: String)
        requires
            indent + 1 + depth(self.value@) < usize::MAX,
        ensures
            r@ == entry_text(self@, indent as nat),
        decreases self,
    {
        let mut out = String::new();
        push_spaces(&mut out, indent);
        key_to_text(&mut out, &self.key);
        let v = self.value.to_indented_string(indent + 1);
        out.append(v.as_str());
        assert(out@ =~= entry_text(self@, indent as nat));
        out
    }

    /// The entry as the first line of a sequence item at indentation `indent`.
    pub fn to_array_string(&self, indent: usize) -> (r: String)
        requires
            indent + 1 + depth(self.value@) < usize::MAX,
        ensures
            r@ == item_first_text(self@, indent as nat),
        decreases self,
    {
        let mut out = String::new();
        push_spaces(&mut out, indent);
        proof {
            reveal_strlit("- ");
        }
        out.append("- ");
        key_to_text(&mut out, &self.key);
        let v = self.value.to_indented_string(indent + 1);
        out.append(v.as_str());
        assert(out@ =~= item_first_text(self@, indent as nat));
        out
    }
}


/// A document as dialect text: its header, its type line and its entries one level in.
pub open spec fn doc_text(d: DocModel) -> Seq<char> {
    "--- !u!"@ + decimal_text(d.class_id) + " &"@ + d.id + seq!['\n'] + d.kind_name + seq![':', '\n']
        + join(entry_lines(d.entries, 1), seq!['\n'])
}

impl UnityObject {
    /// The document as dialect text.
    pub fn to_text(&self) -> (r: String)
        requires
            3 + entries_depth(entries_model(self.entries@)) < usize::MAX,
        ensures
            r@ == doc_text(self@),
    {
        let ghost em = entries_model(self.entries@);
        proof {
            lemma_entries_model_len(self.entries@);
            reveal_strlit("\n");
            reveal_strlit(":\n");
        }
        let mut out = String::new();
        out.append("--- !u!");
        let c = int_to_string(self.class_id);
        out.append(c.as_str());
        out.append(" &");
        out.append(self.id.as_str());
        out.append("\n");
        out.append(self.object_type_name.as_str());
        out.append(":\n");
        let ghost head = out@;
        let mut parts: Vec<String> = Vec::new();
        let mut i: usize = 0;
        while i < self.entries.len()
            invariant
                em == entries_model(self.entries@),
                em.len() == self.entries@.len(),
                3 + entries_depth(em) < usize::MAX,
                i <= self.entries@.len(),
                parts@.map_values(|p: String| p@) == entry_lines(em.take(i as int), 1),
            decreases self.entries@.len() - i,
        {
            proof {
                lemma_entries_model_index(self.entries@, i as int);
                lemma_entries_depth(em, i as int);
                assert(em.take(i + 1int).drop_last() =~= em.take(i as int));
            }
            let part = self.entries[i].to_indented_string(1);
            let ghost before = parts@;
            parts.push(part);
            assert(parts@.map_values(|p: String| p@) =~= before.map_values(|p: String| p@).push(part@));
            i = i + 1;
        }
        assert(em.take(i as int) =~= em);
        proof {
            reveal_strlit("\n");
            assert("\n"@ =~= seq!['\n']);
            assert(":\n"@ =~= seq![':', '\n']);
        }
        let body = join_exec(&parts, "\n");
        out.append(body.as_str());
        assert(out@ =~= doc_text(self@));
        out
    }
}

proof fn lemma_digit_char(d: nat)
    requires
        d < 10,
    ensures
        digit_value(digit_char(d)) == d,
        '0' <= digit_char(d) <= '9',
{
}

proof fn lemma_digits_of(n: nat)
    ensures
        digits_of(n).len() > 0,
        all_digits(digits_of(n)),
        digits_value(digits_of(n)) == n,
    decreases n,
{
    if n < 10 {
        lemma_digit_char(n);
        assert(seq![digit_char(n)].drop_last() =~= Seq::<char>::empty());
        assert(digits_value(Seq::<char>::empty()) == 0);
        assert(digits_value(seq![digit_char(n)]) == digits_value(Seq::<char>::empty()) * 10
            + digit_value(digit_char(n)));
    } else {
        lemma_digits_of(n / 10);
        lemma_digit_char(n % 10);
        let s = digits_of(n);
        assert(s.drop_last() =~= digits_of(n / 10));
        assert(s.last() == digit_char(n % 10));
        vstd::arithmetic::div_mod::lemma_fundamental_div_mod(n as int, 10);
        assert(digits_value(s) == digits_value(digits_of(n / 10)) * 10 + digit_value(digit_char(n % 10)));
        assert forall|i: int| 0 <= i < s.len() implies crate::number::is_digit(#[trigger] s[i]) by {
            if i < s.len() - 1 {
                assert(s[i] == digits_of(n / 10)[i]);
            }
        }
    }
}

/// The decimal text of an `i64` reads back as the same integer.
pub proof fn lemma_decimal_text_reads_back(i: int)
    requires
        i64::MIN <= i <= i64::MAX,
    ensures
        int_literal_value(decimal_text(i)) == Some(i),
{
    if i < 0 {
        lemma_digits_of((-i) as nat);
        let t = decimal_text(i);
        assert(t[0] == '-');
        assert(unsigned_part(t) =~= digits_of((-i) as nat));
    } else {
        lemma_digits_of(i as nat);
        let t = digits_of(i as nat);
        assert(crate::number::is_digit(t[0]));
        assert(unsigned_part(t) == t);
    }
}

/// A value that a plain scalar reads as, written back as text and read again, is the
/// same value: integers, floats and strings alike.
pub proof fn lemma_scalar_round_trip(t: Seq<char>, indent: nat)
    requires
        forall|i: int| 0 <= i < t.len() ==> t[i] != '\n',
    ensures
        scalar_model(value_text_of(scalar_model(t), indent)) == scalar_model(t),
{
    match scalar_model(t) {
        ValueModel::Int(i) => {
            lemma_decimal_text_reads_back(i);
        },
        ValueModel::Float(_) => {},
        ValueModel::Str(s) => {
            if s.len() == 0 {
                assert(lines_of(s) =~= Seq::<Seq<char>>::empty());
                assert(!crate::number::spells(s, seq!['i', 'n', 'f']));
                assert(!crate::number::spells(s, seq!['i', 'n', 'f', 'i', 'n', 'i', 't', 'y']));
                assert(!crate::number::spells(s, seq!['n', 'a', 'n']));
                assert(unsigned_part(s) == s);
                assert(s != seq![' ']);
            } else {
                assert(s == t);
                lemma_find_char(s, '\n');
                assert(lines_of(s) == seq![s]);
            }
        },
        _ => {},
    }
}


proof fn lemma_join_left(parts: Seq<Seq<char>>, sep: Seq<char>)
    requires
        parts.len() >= 2,
    ensures
        join(parts, sep) == parts[0] + sep + join(parts.drop_first(), sep),
    decreases parts.len(),
{
    if parts.len() == 2 {
        assert(parts.drop_first() =~= seq![parts[1]]);
        assert(parts.drop_last() =~= seq![parts[0]]);
        assert(join(seq![parts[1]], sep) == parts[1]);
        assert(join(seq![parts[0]], sep) == parts[0]);
        assert(join(parts, sep) == join(parts.drop_last(), sep) + sep + parts.last());
    } else {
        lemma_join_left(parts.drop_last(), sep);
        let dl = parts.drop_last();
        let df = parts.drop_first();
        assert(dl.drop_first() =~= df.drop_last());
        assert(df.last() == parts.last());
        assert(dl[0] == parts[0]);
        assert(join(parts, sep) == join(dl, sep) + sep + parts.last());
        assert(join(df, sep) == join(df.drop_last(), sep) + sep + df.last());
        assert(join(parts, sep) =~= parts[0] + sep + join(df, sep));
    }
}

/// Text without a comma.
pub open spec fn comma_free(t: Seq<char>) -> bool {
    forall|i: int| 0 <= i < t.len() ==> t[i] != ','
}

proof fn lemma_join_comma_free(parts: Seq<Seq<char>>)
    requires
        parts.len() >= 1,
        forall|i: int| 0 <= i < parts.len() ==> comma_free(#[trigger] parts[i]),
    ensures
        parts.len() == 1 ==> join(parts, seq![',', ' ']) == parts[0],
        parts.len() == 1 ==> find_sep(join(parts, seq![',', ' '])) is None,
{
    if parts.len() == 1 {
        let t = parts[0];
        lemma_find_sep(t);
        if find_sep(t) is Some {
            let i = find_sep(t)->0;
            assert(t[i as int] == ',');
        }
    }
}

proof fn lemma_find_sep_after(a: Seq<char>, rest: Seq<char>)
    requires
        comma_free(a),
    ensures
        find_sep(a + seq![',', ' '] + rest) == Some(a.len()),
{
    let s = a + seq![',', ' '] + rest;
    lemma_find_sep(s);
    assert(s[a.len() as int] == ',' && s[a.len() + 1int] == ' ');
    match find_sep(s) {
        Some(i) => {
            if i < a.len() {
                assert(s[i as int] == a[i as int]);
            }
        },
        None => {},
    }
}

/// Text that a plain scalar can be written as and read back from inside a flow mapping:
/// not empty, on one line, without commas, and starting with neither whitespace, a flow or
/// quote opener, nor `- `.
pub open spec fn flow_scalar_text(t: Seq<char>) -> bool {
    &&& t.len() > 0
    &&& forall|i: int| 0 <= i < t.len() ==> t[i] != '\n'
    &&& comma_free(t)
    &&& !is_ws(t[0])
    &&& t[0] != '{' && t[0] != '"' && t[0] != '\''
    &&& !starts_with(t, seq!['-', ' '])
}

/// A key that a flow mapping can hold: without colons and commas.
pub open spec fn flow_key(k: Seq<char>) -> bool {
    comma_free(k) && forall|i: int| 0 <= i < k.len() ==> k[i] != ':'
}

proof fn lemma_digits_of_plain(n: nat)
    ensures
        forall|i: int| 0 <= i < digits_of(n).len() ==> crate::number::is_digit(#[trigger] digits_of(n)[i]),
        digits_of(n).len() > 0,
{
    lemma_digits_of(n);
}

#[verifier::rlimit(60)]
proof fn lemma_part_reads_back(k: Seq<char>, t: Seq<char>)
    requires
        flow_key(k),
        flow_scalar_text(t),
    ensures
        comma_free(k + seq![':', ' '] + value_text_of(scalar_model(t), 0)),
        inline_entries(k + seq![':', ' '] + value_text_of(scalar_model(t), 0)) == Ok::<
            Seq<EntryModel>,
            ErrorModel,
        >(seq![EntryModel { key: k, value: scalar_model(t) }]),
{
    let v = scalar_model(t);
    let u = value_text_of(v, 0);
    lemma_scalar_round_trip(t, 0);
    // the written text: canonical decimal, the text itself, or empty
    match v {
        ValueModel::Int(i) => {
            lemma_digits_of_plain(if i < 0 { (-i) as nat } else { i as nat });
            assert(u == decimal_text(i));
            assert(comma_free(u)) by {
                assert forall|j: int| 0 <= j < u.len() implies u[j] != ',' by {
                    if i < 0 {
                        if j > 0 {
                            assert(u[j] == digits_of((-i) as nat)[j - 1]);
                        }
                    }
                }
            }
            assert(u.len() > 0);
            assert(!is_ws(u[0]) && u[0] != '{' && u[0] != '"' && u[0] != '\'');
            if u.len() >= 2 {
                assert(u[1] != ' ') by {
                    if i < 0 {
                        assert(u[1] == digits_of((-i) as nat)[0]);
                    }
                }
                assert(u.take(2)[1] == u[1]);
            }
            assert(!starts_with(u, seq!['-', ' ']));
        },
        ValueModel::Str(x) => {
            if x.len() > 0 {
                assert(x == t);
                lemma_find_char(x, '\n');
                assert(lines_of(x) == seq![x]);
                assert(u == t);
            } else {
                assert(lines_of(x) =~= Seq::<Seq<char>>::empty());
                assert(u == x);
            }
        },
        ValueModel::Float(x) => {
            assert(u == t);
        },
        _ => {},
    }
    let f = k + seq![':', ' '] + u;
    assert forall|j: int| 0 <= j < f.len() implies f[j] != ',' by {
        if j >= k.len() + 2 {
            assert(f[j] == u[j - k.len() - 2]);
        } else if j < k.len() {
            assert(f[j] == k[j]);
        }
    }
    assert(f[k.len() as int] == ':');
    assert forall|j: int| 0 <= j < k.len() implies f[j] != ':' by {
        assert(f[j] == k[j]);
    }
    lemma_find_char(f, ':');
    match find_char(f, ':') {
        Some(c) => {
            if c < k.len() {
                assert(f[c as int] == k[c as int]);
            }
            assert(c == k.len());
        },
        None => {},
    }
    assert(f.take(0) =~= Seq::<char>::empty());
    assert(!ends_with(f.take(0), seq!['-', ' ']));
    assert(f.subrange(0, k.len() as int) =~= k);
    let after = f.skip(k.len() + 1int);
    assert(after =~= seq![' '] + u);
    assert(split_entry(f, 0) == Ok::<(Seq<char>, Seq<char>), ErrorModel>((k, after)));
    if u.len() == 0 {
        assert(after =~= seq![' ']);
        assert(value_text(after) == seq![' ']) by {
            assert(!starts_with(seq![' '], seq!['-', ' ']));
        }
        assert(v == ValueModel::Str(Seq::empty()));
        assert(scalar_model(seq![' ']) == ValueModel::Str(Seq::<char>::empty())) by {
            assert(int_literal_value(seq![' ']) is None) by {
                assert(unsigned_part(seq![' ']) == seq![' ']);
                assert(!crate::number::is_digit(seq![' '][0]));
            }
            assert(!is_float_text(seq![' '])) by {
                let r = unsigned_part(seq![' ']);
                assert(r == seq![' ']);
                assert(crate::number::lead_digits(r) == 0);
                assert(r.skip(0) == r);
            }
        }
    } else {
        assert(after != seq![' ']) by {
            assert(after.len() != 1);
        }
        assert((seq![' '] + u).drop_first() =~= u);
        assert(lead_ws(u) == 0);
        assert(lead_ws(after) == 1);
        assert(trim_start(after) =~= u);
        assert(value_text(after) == u);
    }
}

/// A flow mapping of scalars, written back as text and read again as the value of an
/// entry, is the same flow mapping.
pub proof fn lemma_flow_round_trip(key: Seq<char>, keys: Seq<Seq<char>>, texts: Seq<Seq<char>>)
    requires
        flow_key(key),
        keys.len() == texts.len(),
        keys.len() >= 1,
        forall|i: int| 0 <= i < keys.len() ==> flow_key(#[trigger] keys[i]),
        forall|i: int| 0 <= i < texts.len() ==> flow_scalar_text(#[trigger] texts[i]),
    ensures
        ({
            let es = Seq::new(keys.len(), |i: int| EntryModel { key: keys[i], value: scalar_model(texts[i]) });
            inline_entries(key + seq![':', ' '] + value_text_of(ValueModel::Object(es), 0))
                == Ok::<Seq<EntryModel>, ErrorModel>(seq![EntryModel { key, value: ValueModel::Object(es) }])
        }),
{
    let n = keys.len();
    let es = Seq::new(n, |i: int| EntryModel { key: keys[i], value: scalar_model(texts[i]) });
    let parts = flow_parts(es);
    lemma_flow_parts(es);
    assert forall|i: int| 0 <= i < n implies comma_free(#[trigger] parts[i]) && inline_entries(parts[i])
        == Ok::<Seq<EntryModel>, ErrorModel>(seq![es[i]]) by {
        lemma_part_reads_back(keys[i], texts[i]);
    }
    lemma_flow_join(parts, es);
    let body = join(parts, seq![',', ' ']);
    let text = seq!['{'] + body + seq!['}'];
    assert(value_text_of(ValueModel::Object(es), 0) == text);
    let f = key + seq![':', ' '] + text;
    assert(f[key.len() as int] == ':');
    assert forall|j: int| 0 <= j < key.len() implies f[j] != ':' by {
        assert(f[j] == key[j]);
    }
    lemma_find_char(f, ':');
    match find_char(f, ':') {
        Some(c) => {
            if c < key.len() {
                assert(f[c as int] == key[c as int]);
            }
            assert(c == key.len());
        },
        None => {},
    }
    assert(f.take(0) =~= Seq::<char>::empty());
    assert(!ends_with(f.take(0), seq!['-', ' ']));
    assert(f.subrange(0, key.len() as int) =~= key);
    let after = f.skip(key.len() + 1int);
    assert(after =~= seq![' '] + text);
    assert(split_entry(f, 0) == Ok::<(Seq<char>, Seq<char>), ErrorModel>((key, after)));
    assert(after != seq![' ']) by {
        assert(after.len() != 1);
    }
    assert((seq![' '] + text).drop_first() =~= text);
    assert(lead_ws(text) == 0);
    assert(lead_ws(after) == 1);
    assert(trim_start(after) =~= text);
    assert(!starts_with(text, seq!['-', ' '])) by {
        assert(text.take(2)[0] == '{');
    }
    assert(value_text(after) == text);
    assert(text.skip(text.len() - 1) =~= seq!['}']);
    assert(text.subrange(1, text.len() - 1) =~= body);
}

proof fn lemma_flow_parts(es: Seq<EntryModel>)
    ensures
        flow_parts(es).len() == es.len(),
        forall|i: int| 0 <= i < es.len() ==> #[trigger] flow_parts(es)[i] == es[i].key + seq![':', ' ']
            + value_text_of(es[i].value, 0),
    decreases es.len(),
{
    if es.len() > 0 {
        lemma_flow_parts(es.drop_last());
        assert forall|i: int| 0 <= i < es.len() implies #[trigger] flow_parts(es)[i] == es[i].key
            + seq![':', ' '] + value_text_of(es[i].value, 0) by {
            if i < es.len() - 1 {
                assert(flow_parts(es)[i] == flow_parts(es.drop_last())[i]);
                assert(es.drop_last()[i] == es[i]);
            }
        }
    }
}

proof fn lemma_flow_join(parts: Seq<Seq<char>>, es: Seq<EntryModel>)
    requires
        parts.len() == es.len(),
        parts.len() >= 1,
        forall|i: int| 0 <= i < parts.len() ==> comma_free(#[trigger] parts[i]) && inline_entries(parts[i])
            == Ok::<Seq<EntryModel>, ErrorModel>(seq![es[i]]),
    ensures
        flow_entries(join(parts, seq![',', ' '])) == Ok::<Seq<EntryModel>, ErrorModel>(es),
    decreases parts.len(),
{
    let sep = seq![',', ' '];
    if parts.len() == 1 {
        lemma_join_comma_free(parts);
        assert(es =~= seq![es[0]]);
    } else {
        lemma_join_left(parts, sep);
        let p0 = parts[0];
        let rest = join(parts.drop_first(), sep);
        assert(comma_free(p0));
        lemma_find_sep_after(p0, rest);
        let body = join(parts, sep);
        assert(body.take(p0.len() as int) =~= p0);
        assert(body.skip(p0.len() + 2int) =~= rest);
        assert forall|i: int| 0 <= i < parts.drop_first().len() implies comma_free(
            #[trigger] parts.drop_first()[i],
        ) && inline_entries(parts.drop_first()[i]) == Ok::<Seq<EntryModel>, ErrorModel>(
            seq![es.drop_first()[i]],
        ) by {
            assert(parts.drop_first()[i] == parts[i + 1]);
            assert(es.drop_first()[i] == es[i + 1]);
        }
        lemma_flow_join(parts.drop_first(), es.drop_first());
        assert(seq![es[0]] + es.drop_first() =~= es);
    }
}


/// Text of a plain scalar that can stand alone after `key: ` on a line: not empty, on one
/// line, and starting with neither whitespace, a flow or quote opener, nor `- `.
pub open spec fn line_scalar_text(t: Seq<char>) -> bool {
    &&& t.len() > 0
    &&& forall|i: int| 0 <= i < t.len() ==> t[i] != '\n'
    &&& !is_ws(t[0])
    &&& t[0] != '{' && t[0] != '"' && t[0] != '\''
    &&& !starts_with(t, seq!['-', ' '])
}

proof fn lemma_scalar_text_shape(t: Seq<char>, indent: nat)
    requires
        line_scalar_text(t),
    ensures
        line_scalar_text(value_text_of(scalar_model(t), indent)),
{
    let v = scalar_model(t);
    let u = value_text_of(v, indent);
    match v {
        ValueModel::Int(i) => {
            lemma_digits_of_plain(if i < 0 { (-i) as nat } else { i as nat });
            assert(u == decimal_text(i));
            assert forall|j: int| 0 <= j < u.len() implies u[j] != '\n' by {
                if i < 0 {
                    if j > 0 {
                        assert(u[j] == digits_of((-i) as nat)[j - 1]);
                    }
                }
            }
            if u.len() >= 2 {
                assert(u[1] != ' ') by {
                    if i < 0 {
                        assert(u[1] == digits_of((-i) as nat)[0]);
                    }
                }
                assert(u.take(2)[1] == u[1]);
            }
        },
        ValueModel::Str(x) => {
            assert(t != seq![' ']) by {
                assert(t[0] != ' ');
            }
            assert(x == t);
            lemma_find_char(x, '\n');
            assert(lines_of(x) == seq![x]);
        },
        _ => {},
    }
}

/// A plain scalar written back as text by [`YamlValue::to_indented_string`] on the entry
/// line of a document reads back as the same value.
pub proof fn lemma_scalar_round_trip_in_document(
    class_text: Seq<char>,
    class_id: int,
    id: Seq<char>,
    kind: Seq<char>,
    key: Seq<char>,
    t: Seq<char>,
    indent: nat,
)
    requires
        int_literal_value(class_text) == Some(class_id),
        id.len() > 0,
        forall|j: int| 0 <= j < id.len() ==> id[j] != ' ',
        kind.len() > 0,
        !is_ws(kind[0]),
        kind[0] != '%',
        !starts_with(kind, seq!['-', '-', '-', ' ']),
        forall|j: int| 0 <= j < kind.len() ==> kind[j] != ':',
        key.len() > 0,
        !is_ws(key[0]),
        forall|j: int| 0 <= j < key.len() ==> key[j] != ':',
        line_scalar_text(t),
    ensures
        parse_model(
            seq![
                seq!['-', '-', '-', ' ', '!', 'u', '!'] + class_text + seq![' ', '&'] + id,
                kind + seq![':'],
                seq![' ', ' '] + key + seq![':', ' '] + value_text_of(scalar_model(t), indent),
            ],
        ) == Ok::<Seq<Doc>, ErrorModel>(
            seq![
                Doc {
                    id,
                    class_id,
                    kind_name: kind,
                    entries: seq![EntryModel { key, value: scalar_model(t) }],
                },
            ],
        ),
{
    let u = value_text_of(scalar_model(t), indent);
    lemma_scalar_text_shape(t, indent);
    lemma_scalar_round_trip(t, indent);
    lemma_single_document(class_text, class_id, id, kind, key, u);
}

/// A flow mapping of scalars written back as text by [`YamlValue::to_indented_string`]
/// on the entry line of a document reads back as the same flow mapping.
pub proof fn lemma_flow_round_trip_in_document(
    class_text: Seq<char>,
    class_id: int,
    id: Seq<char>,
    kind: Seq<char>,
    key: Seq<char>,
    keys: Seq<Seq<char>>,
    texts: Seq<Seq<char>>,
    indent: nat,
)
    requires
        int_literal_value(class_text) == Some(class_id),
        id.len() > 0,
        forall|j: int| 0 <= j < id.len() ==> id[j] != ' ',
        kind.len() > 0,
        !is_ws(kind[0]),
        kind[0] != '%',
        !starts_with(kind, seq!['-', '-', '-', ' ']),
        forall|j: int| 0 <= j < kind.len() ==> kind[j] != ':',
        key.len() > 0,
        !is_ws(key[0]),
        forall|j: int| 0 <= j < key.len() ==> key[j] != ':',
        keys.len() == texts.len(),
        keys.len() >= 1,
        forall|i: int| 0 <= i < keys.len() ==> flow_key(#[trigger] keys[i]),
        forall|i: int| 0 <= i < texts.len() ==> flow_scalar_text(#[trigger] texts[i]),
    ensures
        ({
            let es = Seq::new(keys.len(), |i: int| EntryModel { key: keys[i], value: scalar_model(texts[i]) });
            parse_model(
                seq![
                    seq!['-', '-', '-', ' ', '!', 'u', '!'] + class_text + seq![' ', '&'] + id,
                    kind + seq![':'],
                    seq![' ', ' '] + key + seq![':', ' '] + value_text_of(ValueModel::Object(es), indent),
                ],
            ) == Ok::<Seq<Doc>, ErrorModel>(
                seq![
                    Doc {
                        id,
                        class_id,
                        kind_name: kind,
                        entries: seq![EntryModel { key, value: ValueModel::Object(es) }],
                    },
                ],
            )
        }),
{
    let n = keys.len();
    let es = Seq::new(n, |i: int| EntryModel { key: keys[i], value: scalar_model(texts[i]) });
    let parts = flow_parts(es);
    lemma_flow_parts(es);
    assert forall|i: int| 0 <= i < n implies comma_free(#[trigger] parts[i]) && inline_entries(parts[i])
        == Ok::<Seq<EntryModel>, ErrorModel>(seq![es[i]]) by {
        lemma_part_reads_back(keys[i], texts[i]);
    }
    lemma_flow_join(parts, es);
    let body = join(parts, seq![',', ' ']);
    let v = seq!['{'] + body + seq!['}'];
    assert(value_text_of(ValueModel::Object(es), indent) == v);
    assert(!starts_with(v, seq!['-', ' '])) by {
        assert(v.take(2)[0] == '{');
    }
    lemma_entry_line(key, v);
    let h = seq!['-', '-', '-', ' ', '!', 'u', '!'] + class_text + seq![' ', '&'] + id;
    let el = seq![' ', ' '] + key + seq![':', ' '] + v;
    let ls = seq![h, kind + seq![':'], el];
    assert(ls[2] == el);
    let rest = v.drop_first();
    assert(rest =~= body + seq!['}']);
    assert(rest.skip(rest.len() - 1) =~= seq!['}']);
    assert(rest.drop_last() =~= body);
    assert(flow_collect(ls, 2, rest) == Some::<(Seq<char>, nat)>((body, 2)));
    let e = EntryModel { key, value: ValueModel::Object(es) };
    assert(parse_entry(ls, 2, 1) == Ok::<(Seq<EntryModel>, nat), ErrorModel>((seq![e], 3)));
    lemma_document_with_entry(class_text, class_id, id, kind, key, v, e);
}


proof fn lemma_entry_lines(es: Seq<EntryModel>, indent: nat)
    ensures
        entry_lines(es, indent).len() == es.len(),
        forall|i: int| 0 <= i < es.len() ==> #[trigger] entry_lines(es, indent)[i] == entry_text(es[i], indent),
    decreases es.len(),
{
    if es.len() > 0 {
        lemma_entry_lines(es.drop_last(), indent);
        assert forall|i: int| 0 <= i < es.len() implies #[trigger] entry_lines(es, indent)[i] == entry_text(es[i], indent) by {
            if i < es.len() - 1 {
                assert(es.drop_last()[i] == es[i]);
            }
        }
    }
}

/// An entry with a plain scalar, written as a line one level in, parses back as the same
/// entry wherever it stands in a file.
pub proof fn lemma_scalar_entry_line(key: Seq<char>, t: Seq<char>)
    requires
        key.len() > 0,
        !is_ws(key[0]),
        forall|j: int| 0 <= j < key.len() ==> key[j] != ':',
        line_scalar_text(t),
    ensures
        entry_line_parses(
            entry_text(EntryModel { key, value: scalar_model(t) }, 1),
            EntryModel { key, value: scalar_model(t) },
        ),
{
    let e = EntryModel { key, value: scalar_model(t) };
    let u = value_text_of(scalar_model(t), 2);
    lemma_scalar_text_shape(t, 2);
    lemma_scalar_round_trip(t, 2);
    lemma_entry_line(key, u);
    let el = seq![' ', ' '] + key + seq![':', ' '] + u;
    assert(entry_text(e, 1) =~= el);
    assert forall|ls: Seq<Seq<char>>, p: nat| p < ls.len() && ls[p as int] == el implies #[trigger] parse_entry(
        ls,
        p,
        1,
    ) == Ok::<(Seq<EntryModel>, nat), ErrorModel>((seq![e], p + 1)) by {}
}

/// An entry holding a flow mapping of scalars, written as a line one level in, parses back
/// as the same entry wherever it stands in a file.
pub proof fn lemma_flow_entry_line(key: Seq<char>, keys: Seq<Seq<char>>, texts: Seq<Seq<char>>)
    requires
        key.len() > 0,
        !is_ws(key[0]),
        forall|j: int| 0 <= j < key.len() ==> key[j] != ':',
        keys.len() == texts.len(),
        keys.len() >= 1,
        forall|i: int| 0 <= i < keys.len() ==> flow_key(#[trigger] keys[i]),
        forall|i: int| 0 <= i < texts.len() ==> flow_scalar_text(#[trigger] texts[i]),
    ensures
        ({
            let es = Seq::new(keys.len(), |i: int| EntryModel { key: keys[i], value: scalar_model(texts[i]) });
            let e = EntryModel { key, value: ValueModel::Object(es) };
            entry_line_parses(entry_text(e, 1), e)
        }),
{
    let n = keys.len();
    let es = Seq::new(n, |i: int| EntryModel { key: keys[i], value: scalar_model(texts[i]) });
    let e = EntryModel { key, value: ValueModel::Object(es) };
    let parts = flow_parts(es);
    lemma_flow_parts(es);
    assert forall|i: int| 0 <= i < n implies comma_free(#[trigger] parts[i]) && inline_entries(parts[i])
        == Ok::<Seq<EntryModel>, ErrorModel>(seq![es[i]]) by {
        lemma_part_reads_back(keys[i], texts[i]);
    }
    lemma_flow_join(parts, es);
    let body = join(parts, seq![',', ' ']);
    let v = seq!['{'] + body + seq!['}'];
    assert(value_text_of(ValueModel::Object(es), 2) == v);
    assert(!starts_with(v, seq!['-', ' '])) by {
        assert(v.take(2)[0] == '{');
    }
    lemma_entry_line(key, v);
    let el = seq![' ', ' '] + key + seq![':', ' '] + v;
    assert(entry_text(e, 1) =~= el);
    let rest = v.drop_first();
    assert(rest =~= body + seq!['}']);
    assert(rest.skip(rest.len() - 1) =~= seq!['}']);
    assert(rest.drop_last() =~= body);
    assert forall|ls: Seq<Seq<char>>, p: nat| p < ls.len() && ls[p as int] == el implies #[trigger] parse_entry(
        ls,
        p,
        1,
    ) == Ok::<(Seq<EntryModel>, nat), ErrorModel>((seq![e], p + 1)) by {
        assert(flow_collect(ls, p, rest) == Some::<(Seq<char>, nat)>((body, p)));
    }
}

/// The header line of a document as [`doc_text`] writes it.
pub open spec fn header_text(d: Doc) -> Seq<char> {
    seq!['-', '-', '-', ' ', '!', 'u', '!'] + decimal_text(d.class_id) + seq![' ', '&'] + d.id
}

/// A document written as text by [`UnityObject::to_text`] is its header line, its type
/// line and one line per entry, joined by line feeds; where each entry's line parses back
/// as the entry (as [`lemma_scalar_entry_line`] and [`lemma_flow_entry_line`] show of
/// scalars and flow mappings), those lines parse back as the same document.
pub proof fn lemma_document_round_trip(d: Doc)
    requires
        i64::MIN <= d.class_id <= i64::MAX,
        d.id.len() > 0,
        forall|j: int| 0 <= j < d.id.len() ==> d.id[j] != ' ',
        d.kind_name.len() > 0,
        !is_ws(d.kind_name[0]),
        d.kind_name[0] != '%',
        !starts_with(d.kind_name, seq!['-', '-', '-', ' ']),
        forall|j: int| 0 <= j < d.kind_name.len() ==> d.kind_name[j] != ':',
        d.entries.len() > 0,
        forall|i: int|
            0 <= i < d.entries.len() ==> entry_line_parses(
                entry_text(#[trigger] d.entries[i], 1),
                d.entries[i],
            ),
    ensures
        doc_text(d) == join(
            seq![header_text(d), d.kind_name + seq![':']] + entry_lines(d.entries, 1),
            seq!['\n'],
        ),
        parse_model(seq![header_text(d), d.kind_name + seq![':']] + entry_lines(d.entries, 1))
            == Ok::<Seq<Doc>, ErrorModel>(seq![d]),
{
    let lines = entry_lines(d.entries, 1);
    lemma_entry_lines(d.entries, 1);
    lemma_decimal_text_reads_back(d.class_id);
    assert forall|k: int| 0 <= k < lines.len() implies entry_line_parses(#[trigger] lines[k], d.entries[k]) by {
        assert(lines[k] == entry_text(d.entries[k], 1));
    }
    lemma_document_with_entries(decimal_text(d.class_id), d.class_id, d.id, d.kind_name, lines, d.entries);
    assert(Doc { id: d.id, class_id: d.class_id, kind_name: d.kind_name, entries: d.entries } == d);
    // the text
    let sep = seq!['\n'];
    let h = header_text(d);
    let tl = d.kind_name + seq![':'];
    let all = seq![h, tl] + lines;
    lemma_join_left(all, sep);
    assert(all.drop_first() =~= seq![tl] + lines);
    lemma_join_left(seq![tl] + lines, sep);
    assert((seq![tl] + lines).drop_first() =~= lines);
    reveal_strlit("--- !u!");
    reveal_strlit(" &");
    assert("--- !u!"@ =~= seq!['-', '-', '-', ' ', '!', 'u', '!']);
    assert(" &"@ =~= seq![' ', '&']);
    assert(doc_text(d) =~= h + sep + tl + sep + join(lines, sep));
}

} // verus!
