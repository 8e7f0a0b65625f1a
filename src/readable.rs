use vstd::prelude::*;
use crate::text::{char_is_ws, ends_with, is_ws, starts_with, str_ends_with, str_starts_with, substring};

verus! {

/// What `char::to_uppercase` gives for a character.
pub uninterp spec fn upper_of(c: char) -> Seq<char>;

/// Whether `char::is_uppercase` holds of a character.
pub uninterp spec fn is_upper(c: char) -> bool;

/// Whether `char::is_lowercase` holds of a character.
pub uninterp spec fn is_lower(c: char) -> bool;

/// Whether `char::is_numeric` holds of a character.
pub uninterp spec fn is_numeric(c: char) -> bool;

/// Relies on `char::to_uppercase`: the upper-case form depends on the character alone.
#[verifier::external_body]
fn char_upper(c: char) -> (r: String)
    ensures
        r@ == upper_of(c),
{
    c.to_uppercase().to_string()
}

/// Relies on `char::is_uppercase`.
#[verifier::external_body]
fn char_is_upper(c: char) -> (r: bool)
    ensures
        r == is_upper(c),
{
    c.is_uppercase()
}

/// Relies on `char::is_lowercase`.
#[verifier::external_body]
fn char_is_lower(c: char) -> (r: bool)
    ensures
        r == is_lower(c),
{
    c.is_lowercase()
}

/// Relies on `char::is_numeric`.
#[verifier::external_body]
fn char_is_numeric(c: char) -> (r: bool)
    ensures
        r == is_numeric(c),
{
    c.is_numeric()
}

/// The part of a field name that is made readable. `m_` is taken off only together with
/// a following `_`, and `>k__BackingField` only from a name so stripped; otherwise the
/// name stays whole.
pub open spec fn readable_base(name: Seq<char>) -> Seq<char> {
    let n1 = if starts_with(name, "m_"@) {
        name.skip(2)
    } else {
        name
    };
    let n2 = if starts_with(n1, seq!['_']) {
        n1.skip(1)
    } else {
        name
    };
    if ends_with(n2, ">k__BackingField"@) {
        n2.take(n2.len() - ">k__BackingField"@.len())
    } else {
        name
    }
}

/// One character added to the readable text `acc`: the first one in upper case; `_` as a
/// space; a space before an upper-case letter after a lower-case one and before a digit
/// after a non-digit; `<` dropped; upper case after whitespace.
pub open spec fn readable_step(acc: Seq<char>, ch: char) -> Seq<char> {
    if acc.len() == 0 {
        acc + upper_of(ch)
    } else if ch == '_' {
        acc.push(' ')
    } else if (is_upper(ch) && is_lower(acc.last())) || (is_numeric(ch) && !is_numeric(acc.last())) {
        acc.push(' ').push(ch)
    } else if ch == '<' {
        acc
    } else if is_ws(acc.last()) {
        acc + upper_of(ch)
    } else {
        acc.push(ch)
    }
}

pub open spec fn readable_fold(s: Seq<char>) -> Seq<char>
    decreases s.len(),
{
    if s.len() == 0 {
        Seq::empty()
    } else {
        readable_step(readable_fold(s.drop_last()), s.last())
    }
}

/// Count of trailing whitespace characters.
pub open spec fn trail_ws(s: Seq<char>) -> nat
    decreases s.len(),
{
    if s.len() > 0 && is_ws(s.last()) {
        1 + trail_ws(s.drop_last())
    } else {
        0
    }
}

proof fn lemma_trail_ws(s: Seq<char>)
    ensures
        trail_ws(s) <= s.len(),
    decreases s.len(),
{
    if s.len() > 0 && is_ws(s.last()) {
        lemma_trail_ws(s.drop_last());
    }
}

/// A field name as a label: see [`readable_base`] and [`readable_step`]; trailing
/// whitespace is trimmed.
pub open spec fn readable(name: Seq<char>) -> Seq<char> {
    let t = readable_fold(readable_base(name));
    t.take(t.len() - trail_ws(t))
}

/// Turns a field name into a label for display.
pub fn field_name_to_readable(name: &str) -> (r: String)
    ensures
        r@ == readable(name@),
{
    let n = name.unicode_len();
    proof {
        reveal_strlit("m_");
        reveal_strlit(">k__BackingField");
    }
    let n1 = if str_starts_with(name, "m_") {
        name.substring_char(2, n)
    } else {
        name
    };
    let n2 = if crate::text::str_starts_with_char(n1, '_') {
        n1.substring_char(1, n1.unicode_len())
    } else {
        name
    };
    let suffix = ">k__BackingField";
    let base = if str_ends_with(n2, suffix) {
        n2.substring_char(0, n2.unicode_len() - suffix.unicode_len())
    } else {
        name
    };
    assert(base@ == readable_base(name@));
    let m = base.unicode_len();
    let mut acc = String::new();
    let mut i: usize = 0;
    while i < m
        invariant
            m == base@.len(),
            i <= m,
            acc@ == readable_fold(base@.take(i as int)),
        decreases m - i,
    {
        assert(base@.take(i + 1int).drop_last() =~= base@.take(i as int));
        let ch = base.get_char(i);
        assert(base@.subrange(i as int, i + 1int) =~= seq![ch]);
        let ghost before = acc@;
        let k = acc.as_str().unicode_len();
        if k == 0 {
            let u = char_upper(ch);
            acc.append(u.as_str());
        } else if ch == '_' {
            proof {
                reveal_strlit(" ");
            }
            acc.append(" ");
            assert(acc@ =~= before.push(' '));
        } else {
            let last = acc.as_str().get_char(k - 1);
            if (char_is_upper(ch) && char_is_lower(last)) || (char_is_numeric(ch)
                && !char_is_numeric(last)) {
                proof {
                    reveal_strlit(" ");
                }
                acc.append(" ");
                acc.append(base.substring_char(i, i + 1));
                assert(acc@ =~= before.push(' ').push(ch));
            } else if ch == '<' {
            } else if char_is_ws(last) {
                let u = char_upper(ch);
                acc.append(u.as_str());
            } else {
                acc.append(base.substring_char(i, i + 1));
                assert(acc@ =~= before.push(ch));
            }
        }
        i = i + 1;
    }
    assert(base@.take(m as int) =~= base@);
    let t = acc.as_str();
    let tl = t.unicode_len();
    let mut j = tl;
    proof {
        lemma_trail_ws(t@);
    }
    assert(t@.take(j as int) =~= t@);
    while j > 0 && char_is_ws(t.get_char(j - 1))
        invariant
            tl == t@.len(),
            j <= tl,
            trail_ws(t@) == (tl - j) + trail_ws(t@.take(j as int)),
        decreases j,
    {
        assert(t@.take(j as int).drop_last() =~= t@.take(j - 1));
        j = j - 1;
    }
    substring(t, 0, j)
}

} // verus!
