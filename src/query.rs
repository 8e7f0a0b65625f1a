use vstd::prelude::*;
use crate::number::{decimal_text, int_to_string};
use crate::value::{
    YamlEntry, EntryModel, YamlValue, ValueModel, entries_model, groups_model, lemma_entries_model_index,
    lemma_entries_model_len, lemma_groups_model_index, lemma_groups_model_len,
};
use crate::vector::{Number, NumberModel, Vec2, Vec3, Vector4, Vector4Model};

verus! {

/// The value of the first entry named `key`.
pub open spec fn lookup(es: Seq<EntryModel>, key: Seq<char>) -> Option<ValueModel>
    decreases es.len(),
{
    if es.len() == 0 {
        None
    } else if es[0].key == key {
        Some(es[0].value)
    } else {
        lookup(es.drop_first(), key)
    }
}

/// The entries of a mapping, block or flow.
pub open spec fn as_map(v: ValueModel) -> Option<Seq<EntryModel>> {
    match v {
        ValueModel::Entries(es) => Some(es),
        ValueModel::Object(es) => Some(es),
        _ => None,
    }
}

pub open spec fn as_int(v: ValueModel) -> Option<int> {
    match v {
        ValueModel::Int(i) => Some(i),
        _ => None,
    }
}

pub open spec fn as_text(v: ValueModel) -> Option<Seq<char>> {
    match v {
        ValueModel::Str(s) => Some(s),
        _ => None,
    }
}

pub open spec fn as_number(v: ValueModel) -> Option<NumberModel> {
    match v {
        ValueModel::Int(i) => Some(NumberModel::Int(i)),
        ValueModel::Float(s) => Some(NumberModel::Real(s)),
        _ => None,
    }
}

/// A reference id as text: an integer in decimal, or a string as it is.
pub open spec fn file_id_of(v: ValueModel) -> Option<Seq<char>> {
    match v {
        ValueModel::Int(i) => Some(decimal_text(i)),
        ValueModel::Str(s) => Some(s),
        _ => None,
    }
}

/// The id of a reference `{fileID: ...}` held under `key`.
pub open spec fn ref_id(es: Seq<EntryModel>, key: Seq<char>) -> Option<Seq<char>> {
    match lookup(es, key) {
        Some(v) => match as_map(v) {
            Some(m) => match lookup(m, seq!['f', 'i', 'l', 'e', 'I', 'D']) {
                Some(f) => file_id_of(f),
                None => None,
            },
            None => None,
        },
        None => None,
    }
}

/// The items of a sequence; `[]` is the empty one.
pub open spec fn as_items(v: ValueModel) -> Option<Seq<Seq<EntryModel>>> {
    match v {
        ValueModel::Array(gs) => Some(gs),
        ValueModel::Str(s) => if s == seq!['[', ']'] {
            Some(Seq::empty())
        } else {
            None
        },
        _ => None,
    }
}

/// The mapping that a sequence item stands for: an item `- {...}` is the flow mapping.
pub open spec fn item_map(g: Seq<EntryModel>) -> Seq<EntryModel> {
    if g.len() == 1 && g[0].key.len() == 0 && g[0].value is Object {
        g[0].value->Object_0
    } else {
        g
    }
}

pub open spec fn number_at(es: Seq<EntryModel>, key: Seq<char>) -> Option<NumberModel> {
    match lookup(es, key) {
        Some(v) => as_number(v),
        None => None,
    }
}

pub open spec fn vec2_of(es: Seq<EntryModel>) -> Option<Vec2<NumberModel>> {
    match (number_at(es, seq!['x']), number_at(es, seq!['y'])) {
        (Some(x), Some(y)) => Some(Vec2 { x, y }),
        _ => None,
    }
}

pub open spec fn vec3_of(es: Seq<EntryModel>) -> Option<Vec3<NumberModel>> {
    match (number_at(es, seq!['x']), number_at(es, seq!['y']), number_at(es, seq!['z'])) {
        (Some(x), Some(y), Some(z)) => Some(Vec3 { x, y, z }),
        _ => None,
    }
}

pub open spec fn vec4_of(es: Seq<EntryModel>) -> Option<Vector4Model> {
    match (
        number_at(es, seq!['x']),
        number_at(es, seq!['y']),
        number_at(es, seq!['z']),
        number_at(es, seq!['w']),
    ) {
        (Some(x), Some(y), Some(z), Some(w)) => Some(Vector4Model { x, y, z, w }),
        _ => None,
    }
}

/// The reference ids of sequence items, each item read through `item_id`; `None` where
/// one of them has none.
pub open spec fn ids_of_items(gs: Seq<Seq<EntryModel>>, nested: bool) -> Option<Seq<Seq<char>>>
    decreases gs.len(),
{
    if gs.len() == 0 {
        Some(Seq::empty())
    } else {
        match (ids_of_items(gs.drop_last(), nested), item_id(gs.last(), nested)) {
            (Some(ids), Some(id)) => Some(ids.push(id)),
            _ => None,
        }
    }
}

/// The reference id of one sequence item: `- {fileID: ...}`, or, where `nested`,
/// `- component: {fileID: ...}`.
pub open spec fn item_id(g: Seq<EntryModel>, nested: bool) -> Option<Seq<char>> {
    let m = item_map(g);
    if nested {
        ref_id(m, seq!['c', 'o', 'm', 'p', 'o', 'n', 'e', 'n', 't'])
    } else {
        match lookup(m, seq!['f', 'i', 'l', 'e', 'I', 'D']) {
            Some(f) => file_id_of(f),
            None => None,
        }
    }
}

/// Finds the first entry named `key`.
pub fn find_value<'a>(es: &'a Vec<YamlEntry>, key: &str) -> (r: Option<&'a YamlValue>)
    ensures
        match lookup(entries_model(es@), key@) {
            Some(v) => r matches Some(x) && x@ == v,
            None => r is None,
        },
{
    let ghost m = entries_model(es@);
    proof {
        lemma_entries_model_len(es@);
    }
    let mut i: usize = 0;
    assert(m.skip(0) =~= m);
    while i < es.len()
        invariant
            m == entries_model(es@),
            m.len() == es@.len(),
            i <= es@.len(),
            lookup(m, key@) == lookup(m.skip(i as int), key@),
        decreases es@.len() - i,
    {
        proof {
            lemma_entries_model_index(es@, i as int);
            assert(m.skip(i as int).drop_first() =~= m.skip(i + 1int));
        }
        if str_eq(es[i].key.as_str(), key) {
            return Some(&es[i].value);
        }
        i = i + 1;
    }
    None
}

/// Whether two strings hold the same characters.
pub fn str_eq(a: &str, b: &str) -> (r: bool)
    ensures
        r == (a@ == b@),
{
    let n = a.unicode_len();
    if n != b.unicode_len() {
        return false;
    }
    let mut i: usize = 0;
    while i < n
        invariant
            n == a@.len(),
            n == b@.len(),
            i <= n,
            forall|k: int| 0 <= k < i ==> a@[k] == b@[k],
        decreases n - i,
    {
        if a.get_char(i) != b.get_char(i) {
            return false;
        }
        i = i + 1;
    }
    assert(a@ =~= b@);
    true
}

pub fn value_map(v: &YamlValue) -> (r: Option<&Vec<YamlEntry>>)
    ensures
        match as_map(v@) {
            Some(m) => r matches Some(x) && entries_model(x@) == m,
            None => r is None,
        },
{
    match v {
        YamlValue::Entries(es) => Some(es),
        YamlValue::Object(es) => Some(es),
        _ => None,
    }
}

pub fn value_int(v: &YamlValue) -> (r: Option<i64>)
    ensures
        match as_int(v@) {
            Some(i) => r matches Some(x) && x as int == i,
            None => r is None,
        },
{
    match v {
        YamlValue::Int(i) => Some(*i),
        _ => None,
    }
}

pub fn value_text(v: &YamlValue) -> (r: Option<String>)
    ensures
        match as_text(v@) {
            Some(s) => r matches Some(x) && x@ == s,
            None => r is None,
        },
{
    match v {
        YamlValue::Str(s) => Some(s.clone()),
        _ => None,
    }
}

pub fn value_number(v: &YamlValue) -> (r: Option<Number>)
    ensures
        match as_number(v@) {
            Some(n) => r matches Some(x) && x@ == n,
            None => r is None,
        },
{
    match v {
        YamlValue::Int(i) => Some(Number::Int(*i)),
        YamlValue::Float(s) => Some(Number::Real(s.clone())),
        _ => None,
    }
}

/// Reads a reference id: an integer in decimal, or a string as it is.
pub fn file_id_text(v: &YamlValue) -> (r: Option<String>)
    ensures
        match file_id_of(v@) {
            Some(s) => r matches Some(x) && x@ == s,
            None => r is None,
        },
{
    match v {
        YamlValue::Int(i) => Some(int_to_string(*i)),
        YamlValue::Str(s) => Some(s.clone()),
        _ => None,
    }
}

fn file_id_key() -> (r: &'static str)
    ensures
        r@ == seq!['f', 'i', 'l', 'e', 'I', 'D'],
{
    proof {
        reveal_strlit("fileID");
    }
    let r = "fileID";
    assert(r@ =~= seq!['f', 'i', 'l', 'e', 'I', 'D']);
    r
}

/// Reads the id of a reference `{fileID: ...}` held under `key`.
pub fn find_ref_id(es: &Vec<YamlEntry>, key: &str) -> (r: Option<String>)
    ensures
        match ref_id(entries_model(es@), key@) {
            Some(s) => r matches Some(x) && x@ == s,
            None => r is None,
        },
{
    let v = find_value(es, key)?;
    let m = value_map(v)?;
    let f = find_value(m, file_id_key())?;
    file_id_text(f)
}

pub fn value_items(v: &YamlValue) -> (r: Option<Vec<Vec<YamlEntry>>>)
    ensures
        match as_items(v@) {
            Some(gs) => r matches Some(x) && groups_model(x@) == gs,
            None => r is None,
        },
{
    match v {
        YamlValue::Array(gs) => Some(clone_groups(gs)),
        YamlValue::Str(s) => {
            proof {
                reveal_strlit("[]");
                assert("[]"@ =~= seq!['[', ']']);
            }
            if str_eq(s.as_str(), "[]") {
                let empty: Vec<Vec<YamlEntry>> = Vec::new();
                assert(groups_model(empty@) =~= Seq::<Seq<EntryModel>>::empty());
                Some(empty)
            } else {
                None
            }
        },
        _ => None,
    }
}

pub fn item_entries(g: &Vec<YamlEntry>) -> (r: &Vec<YamlEntry>)
    ensures
        entries_model(r@) == item_map(entries_model(g@)),
{
    proof {
        lemma_entries_model_len(g@);
    }
    if g.len() == 1 && g[0].key.as_str().unicode_len() == 0 {
        proof {
            lemma_entries_model_index(g@, 0);
        }
        match &g[0].value {
            YamlValue::Object(es) => {
                return es;
            },
            _ => {},
        }
    }
    proof {
        if g@.len() == 1 {
            lemma_entries_model_index(g@, 0);
        }
    }
    g
}

pub fn number_under(es: &Vec<YamlEntry>, key: &str) -> (r: Option<Number>)
    ensures
        match number_at(entries_model(es@), key@) {
            Some(n) => r matches Some(x) && x@ == n,
            None => r is None,
        },
{
    let v = find_value(es, key)?;
    value_number(v)
}

/// Reads the `x` and `y` entries of a mapping as numbers.
pub fn obj_to_vec2(es: &Vec<YamlEntry>) -> (r: Option<Vec2<Number>>)
    ensures
        match vec2_of(entries_model(es@)) {
            Some(m) => r matches Some(x) && x@ == m,
            None => r is None,
        },
{
    proof {
        reveal_strlit("x");
        reveal_strlit("y");
        assert("x"@ =~= seq!['x']);
        assert("y"@ =~= seq!['y']);
    }
    let x = number_under(es, "x");
    let y = number_under(es, "y");
    match (x, y) {
        (Some(x), Some(y)) => Some(Vec2 { x, y }),
        _ => None,
    }
}

/// Reads the `x`, `y` and `z` entries of a mapping as numbers.
pub fn obj_to_vec3(es: &Vec<YamlEntry>) -> (r: Option<Vec3<Number>>)
    ensures
        match vec3_of(entries_model(es@)) {
            Some(m) => r matches Some(x) && x@ == m,
            None => r is None,
        },
{
    proof {
        reveal_strlit("x");
        reveal_strlit("y");
        reveal_strlit("z");
        assert("x"@ =~= seq!['x']);
        assert("y"@ =~= seq!['y']);
        assert("z"@ =~= seq!['z']);
    }
    let x = number_under(es, "x");
    let y = number_under(es, "y");
    let z = number_under(es, "z");
    match (x, y, z) {
        (Some(x), Some(y), Some(z)) => Some(Vec3 { x, y, z }),
        _ => None,
    }
}

/// Reads the `x`, `y`, `z` and `w` entries of a mapping as numbers.
pub fn obj_to_vec4(es: &Vec<YamlEntry>) -> (r: Option<Vector4>)
    ensures
        match vec4_of(entries_model(es@)) {
            Some(m) => r matches Some(x) && x@ == m,
            None => r is None,
        },
{
    proof {
        reveal_strlit("x");
        reveal_strlit("y");
        reveal_strlit("z");
        reveal_strlit("w");
        assert("x"@ =~= seq!['x']);
        assert("y"@ =~= seq!['y']);
        assert("z"@ =~= seq!['z']);
        assert("w"@ =~= seq!['w']);
    }
    let x = number_under(es, "x");
    let y = number_under(es, "y");
    let z = number_under(es, "z");
    let w = number_under(es, "w");
    match (x, y, z, w) {
        (Some(x), Some(y), Some(z), Some(w)) => Some(Vector4 { x, y, z, w }),
        _ => None,
    }
}

/// Reads the reference ids of sequence items.
pub fn item_ids(gs: &Vec<Vec<YamlEntry>>, nested: bool) -> (r: Option<Vec<String>>)
    ensures
        match ids_of_items(groups_model(gs@), nested) {
            Some(ids) => r matches Some(x) && x@.map_values(|s: String| s@) == ids,
            None => r is None,
        },
{
    let ghost g = groups_model(gs@);
    proof {
        lemma_groups_model_len(gs@);
    }
    let mut out: Vec<String> = Vec::new();
    let mut i: usize = 0;
    proof {
        reveal_strlit("component");
    }
    let component = "component";
    assert(component@ =~= seq!['c', 'o', 'm', 'p', 'o', 'n', 'e', 'n', 't']);
    while i < gs.len()
        invariant
            g == groups_model(gs@),
            g.len() == gs@.len(),
            i <= gs@.len(),
            component@ == seq!['c', 'o', 'm', 'p', 'o', 'n', 'e', 'n', 't'],
            ids_of_items(g.take(i as int), nested) == Some(out@.map_values(|s: String| s@)),
        decreases gs@.len() - i,
    {
        proof {
            lemma_groups_model_index(gs@, i as int);
            assert(g.take(i + 1int).drop_last() =~= g.take(i as int));
        }
        let m = item_entries(&gs[i]);
        let id = if nested {
            find_ref_id(m, component)
        } else {
            match find_value(m, file_id_key()) {
                Some(f) => file_id_text(f),
                None => None,
            }
        };
        match id {
            Some(s) => {
                let ghost before = out@;
                out.push(s);
                assert(out@.map_values(|s: String| s@) =~= before.map_values(|s: String| s@).push(
                    s@,
                ));
            },
            None => {
                proof {
                    lemma_ids_of_items_prefix(g, i as int + 1, nested);
                }
                return None;
            },
        }
        i = i + 1;
    }
    assert(g.take(i as int) =~= g);
    Some(out)
}

proof fn lemma_ids_of_items_prefix(gs: Seq<Seq<EntryModel>>, k: int, nested: bool)
    requires
        0 <= k <= gs.len(),
        ids_of_items(gs.take(k), nested) is None,
    ensures
        ids_of_items(gs, nested) is None,
    decreases gs.len() - k,
{
    if k < gs.len() {
        assert(gs.take(k + 1).drop_last() =~= gs.take(k));
        lemma_ids_of_items_prefix(gs, k + 1, nested);
    } else {
        assert(gs.take(k) =~= gs);
    }
}

/// A copy of a value.
pub fn clone_value(v: &YamlValue) -> (r: YamlValue)
    ensures
        r@ == v@,
    decreases v,
{
    match v {
        YamlValue::Int(i) => YamlValue::Int(*i),
        YamlValue::Float(s) => YamlValue::Float(s.clone()),
        YamlValue::Str(s) => YamlValue::Str(s.clone()),
        YamlValue::Entries(es) => YamlValue::Entries(clone_entries(es)),
        YamlValue::Object(es) => YamlValue::Object(clone_entries(es)),
        YamlValue::Array(gs) => YamlValue::Array(clone_groups(gs)),
    }
}

/// A copy of a list of entries.
pub fn clone_entries(es: &Vec<YamlEntry>) -> (r: Vec<YamlEntry>)
    ensures
        entries_model(r@) == entries_model(es@),
    decreases es,
{
    let mut out: Vec<YamlEntry> = Vec::new();
    let mut i: usize = 0;
    while i < es.len()
        invariant
            i <= es@.len(),
            entries_model(out@) == entries_model(es@.take(i as int)),
        decreases es@.len() - i,
    {
        assert(decreases_to!(es => es@[i as int].value)) by {
            assert(decreases_to!(es => es@));
        }
        let e = YamlEntry { key: es[i].key.clone(), value: clone_value(&es[i].value) };
        let ghost before = out@;
        out.push(e);
        assert(out@.drop_last() =~= before);
        assert(es@.take(i + 1int).drop_last() =~= es@.take(i as int));
        i = i + 1;
    }
    assert(es@.take(i as int) =~= es@);
    out
}

/// A copy of the items of a sequence.
pub fn clone_groups(gs: &Vec<Vec<YamlEntry>>) -> (r: Vec<Vec<YamlEntry>>)
    ensures
        groups_model(r@) == groups_model(gs@),
    decreases gs,
{
    let mut out: Vec<Vec<YamlEntry>> = Vec::new();
    let mut i: usize = 0;
    while i < gs.len()
        invariant
            i <= gs@.len(),
            groups_model(out@) == groups_model(gs@.take(i as int)),
        decreases gs@.len() - i,
    {
        assert(decreases_to!(gs => gs@[i as int])) by {
            assert(decreases_to!(gs => gs@));
        }
        let g = clone_entries(&gs[i]);
        let ghost before = out@;
        out.push(g);
        assert(out@.drop_last() =~= before);
        assert(gs@.take(i + 1int).drop_last() =~= gs@.take(i as int));
        i = i + 1;
    }
    assert(gs@.take(i as int) =~= gs@);
    out
}


/// What can be read as a reference id.
pub trait AsFileId {
    spec fn file_id_spec(&self) -> Option<Seq<char>>;

    fn as_file_id(&self) -> (r: Option<String>)
        ensures
            match self.file_id_spec() {
                Some(s) => r matches Some(x) && x@ == s,
                None => r is None,
            },
    ;
}

impl AsFileId for YamlValue {
    open spec fn file_id_spec(&self) -> Option<Seq<char>> {
        file_id_of(self@)
    }

    fn as_file_id(&self) -> (r: Option<String>) {
        file_id_text(self)
    }
}

} // verus!
