use vstd::prelude::*;
use crate::number::{decimal_text, int_literal_value, int_to_string, is_float, is_float_text, parse_i64};

verus! {

/// A parsed value.
#[derive(Debug, PartialEq)]
pub enum YamlValue {
    Int(i64),
    /// A decimal number that is no integer, kept as written.
    Float(String),
    Str(String),
    Entries(Vec<YamlEntry>),
    Object(Vec<YamlEntry>),
    Array(Vec<Vec<YamlEntry>>),
}

/// A named value.
#[derive(Debug, PartialEq)]
pub struct YamlEntry {
    pub key: String,
    pub value: YamlValue,
}

/// Mathematical model of a [`YamlValue`].
pub enum ValueModel {
    Int(int),
    Float(Seq<char>),
    Str(Seq<char>),
    Entries(Seq<EntryModel>),
    Object(Seq<EntryModel>),
    Array(Seq<Seq<EntryModel>>),
}

/// Mathematical model of a [`YamlEntry`].
pub struct EntryModel {
    pub key: Seq<char>,
    pub value: ValueModel,
}

pub open spec fn value_model(v: YamlValue) -> ValueModel
    decreases v,
{
    match v {
        YamlValue::Int(i) => ValueModel::Int(i as int),
        YamlValue::Float(s) => ValueModel::Float(s@),
        YamlValue::Str(s) => ValueModel::Str(s@),
        YamlValue::Entries(es) => ValueModel::Entries(entries_model(es@)),
        YamlValue::Object(es) => ValueModel::Object(entries_model(es@)),
        YamlValue::Array(a) => ValueModel::Array(groups_model(a@)),
    }
}

pub open spec fn entries_model(s: Seq<YamlEntry>) -> Seq<EntryModel>
    decreases s,
{
    if s.len() == 0 {
        Seq::empty()
    } else {
        entries_model(s.drop_last()).push(
            EntryModel { key: s.last().key@, value: value_model(s.last().value) },
        )
    }
}

pub open spec fn groups_model(s: Seq<Vec<YamlEntry>>) -> Seq<Seq<EntryModel>>
    decreases s,
{
    if s.len() == 0 {
        Seq::empty()
    } else {
        groups_model(s.drop_last()).push(entries_model(s.last()@))
    }
}


/// One document of a file: its header's anchor and class tag, its type name and its entries.
#[derive(Debug, PartialEq)]
pub struct UnityObject {
    pub id: String,
    pub class_id: i64,
    pub object_type_name: String,
    pub entries: Vec<YamlEntry>,
}

/// Mathematical model of a [`UnityObject`].
pub struct DocModel {
    pub id: Seq<char>,
    pub class_id: int,
    pub kind_name: Seq<char>,
    pub entries: Seq<EntryModel>,
}

impl View for YamlValue {
    type V = ValueModel;

    open spec fn view(&self) -> ValueModel {
        value_model(*self)
    }
}

impl View for YamlEntry {
    type V = EntryModel;

    open spec fn view(&self) -> EntryModel {
        EntryModel { key: self.key@, value: value_model(self.value) }
    }
}

impl View for UnityObject {
    type V = DocModel;

    open spec fn view(&self) -> DocModel {
        DocModel {
            id: self.id@,
            class_id: self.class_id as int,
            kind_name: self.object_type_name@,
            entries: entries_model(self.entries@),
        }
    }
}

pub open spec fn docs_model(s: Seq<UnityObject>) -> Seq<DocModel> {
    s.map_values(|d: UnityObject| d@)
}

pub proof fn lemma_entries_model_single(e: YamlEntry)
    ensures
        entries_model(seq![e]) == seq![e@],
{
    assert(seq![e].drop_last() =~= Seq::<YamlEntry>::empty());
    assert(entries_model(Seq::<YamlEntry>::empty()).push(e@) =~= seq![e@]);
}

pub proof fn lemma_groups_model_push(s: Seq<Vec<YamlEntry>>, g: Vec<YamlEntry>)
    ensures
        groups_model(s.push(g)) == groups_model(s).push(entries_model(g@)),
{
    assert(s.push(g).drop_last() =~= s);
}

pub proof fn lemma_entries_model_len(s: Seq<YamlEntry>)
    ensures
        entries_model(s).len() == s.len(),
    decreases s.len(),
{
    if s.len() > 0 {
        lemma_entries_model_len(s.drop_last());
    }
}

pub proof fn lemma_entries_model_index(s: Seq<YamlEntry>, i: int)
    requires
        0 <= i < s.len(),
    ensures
        entries_model(s)[i] == s[i]@,
    decreases s.len(),
{
    lemma_entries_model_len(s.drop_last());
    if i < s.len() - 1 {
        lemma_entries_model_index(s.drop_last(), i);
    }
}

pub proof fn lemma_entries_model_concat(a: Seq<YamlEntry>, b: Seq<YamlEntry>)
    ensures
        entries_model(a + b) == entries_model(a) + entries_model(b),
    decreases b.len(),
{
    if b.len() == 0 {
        assert(a + b =~= a);
        assert(entries_model(a) + entries_model(b) =~= entries_model(a));
    } else {
        lemma_entries_model_concat(a, b.drop_last());
        assert((a + b).drop_last() =~= a + b.drop_last());
        assert(entries_model(a) + entries_model(b) =~= entries_model(a) + entries_model(
            b.drop_last(),
        ) + seq![b.last()@]);
    }
}

pub proof fn lemma_groups_model_len(s: Seq<Vec<YamlEntry>>)
    ensures
        groups_model(s).len() == s.len(),
    decreases s.len(),
{
    if s.len() > 0 {
        lemma_groups_model_len(s.drop_last());
    }
}

pub proof fn lemma_groups_model_index(s: Seq<Vec<YamlEntry>>, i: int)
    requires
        0 <= i < s.len(),
    ensures
        groups_model(s)[i] == entries_model(s[i]@),
    decreases s.len(),
{
    lemma_groups_model_len(s.drop_last());
    if i < s.len() - 1 {
        lemma_groups_model_index(s.drop_last(), i);
    }
}

/// How a plain scalar is read: an `i64` literal whose value writes back with as many
/// characters (or the literal `-0`) is an integer; other text that `f64` accepts is a
/// float; a lone space stands for the empty string; anything else is a string as written.
pub open spec fn scalar_model(s: Seq<char>) -> ValueModel {
    match int_literal_value(s) {
        Some(i) => if s.len() == decimal_text(i).len() || s == seq!['-', '0'] {
            ValueModel::Int(i)
        } else {
            ValueModel::Str(s)
        },
        None => if is_float_text(s) {
            ValueModel::Float(s)
        } else if s == seq![' '] {
            ValueModel::Str(Seq::empty())
        } else {
            ValueModel::Str(s)
        },
    }
}

/// Reads a plain scalar.
pub fn scalar_value(s: &str) -> (r: YamlValue)
    ensures
        r@ == scalar_model(s@),
{
    let n = s.unicode_len();
    match parse_i64(s) {
        Some(i) => {
            let t = int_to_string(i);
            let minus_zero = n == 2 && s.get_char(0) == '-' && s.get_char(1) == '0';
            proof {
                if n == 2 {
                    assert(minus_zero == (s@ == seq!['-', '0'])) by {
                        if s@ == seq!['-', '0'] {
                            assert(s@[0] == '-' && s@[1] == '0');
                        }
                        if minus_zero {
                            assert(s@ =~= seq!['-', '0']);
                        }
                    }
                } else {
                    assert(s@ != seq!['-', '0']);
                }
            }
            if n == t.as_str().unicode_len() || minus_zero {
                YamlValue::Int(i)
            } else {
                YamlValue::Str(s.to_string())
            }
        },
        None => {
            if is_float(s) {
                YamlValue::Float(s.to_string())
            } else if n == 1 && s.get_char(0) == ' ' {
                assert(s@ =~= seq![' ']);
                YamlValue::Str(String::new())
            } else {
                assert(s@ != seq![' ']) by {
                    if s@ == seq![' '] {
                        assert(s@[0] == ' ');
                    }
                }
                YamlValue::Str(s.to_string())
            }
        },
    }
}

} // verus!
