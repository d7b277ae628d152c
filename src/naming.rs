//! Field identity: event names and handle identifiers derived from type and field names.
use vstd::prelude::*;
use vstd::string::*;

verus! {

/// A character that may appear in an identifier.
pub open spec fn is_ident_char(c: char) -> bool {
    ('a' <= c && c <= 'z') || ('A' <= c && c <= 'Z') || ('0' <= c && c <= '9') || c == '_'
}

/// A non-empty identifier of ASCII letters, digits and underscores, not starting with a
/// digit and not a lone underscore.
pub open spec fn is_ident(s: Seq<char>) -> bool {
    &&& s.len() > 0
    &&& s != seq!['_']
    &&& !('0' <= s[0] && s[0] <= '9')
    &&& forall|i: int| 0 <= i < s.len() ==> is_ident_char(#[trigger] s[i])
}

/// The separator between the owning type's name and the field's name.
pub open spec fn separator() -> Seq<char> {
    seq![':', ':']
}

/// The event name of a field: `<TypeName>::<field_name>`.
pub open spec fn event_name_of(owner: Seq<char>, field_name: Seq<char>) -> Seq<char> {
    owner + separator() + field_name
}

/// ASCII upper case of one character; other characters are kept.
pub open spec fn upper(c: char) -> char {
    if 'a' <= c && c <= 'z' {
        ((c as u32) - 32) as char
    } else {
        c
    }
}

/// snake_case to PascalCase: underscores are dropped and the character after each
/// underscore (and the first one) is upper-cased.
pub open spec fn pascal_from(s: Seq<char>, cap: bool) -> Seq<char>
    decreases s.len(),
{
    if s.len() == 0 {
        Seq::empty()
    } else if s[0] == '_' {
        pascal_from(s.drop_first(), true)
    } else {
        seq![if cap { upper(s[0]) } else { s[0] }] + pascal_from(s.drop_first(), false)
    }
}

/// The PascalCase form of a snake_case name.
pub open spec fn pascal(s: Seq<char>) -> Seq<char> {
    pascal_from(s, true)
}

/// The marker that starts every field handle identifier.
pub open spec fn handle_marker() -> char {
    'F'
}

/// The handle identifier of a field: the marker followed by the PascalCase field name.
pub open spec fn handle_ident_of(field_name: Seq<char>) -> Seq<char> {
    seq![handle_marker()] + pascal(field_name)
}

/// ASCII upper case of `c`.
fn ascii_upper(c: char) -> (r: char)
    ensures
        r == upper(c),
{
    if 'a' <= c && c <= 'z' {
        ((c as u8) - 32) as char
    } else {
        c
    }
}

/// Relies on String::push: appends one character.
#[verifier::external_body]
fn push_char(s: &mut String, c: char)
    ensures
        final(s)@ == old(s)@.push(c),
{
    s.push(c)
}

/// Whether `c` may appear in an identifier.
pub fn is_identifier_char(c: char) -> (r: bool)
    ensures
        r == is_ident_char(c),
{
    ('a' <= c && c <= 'z') || ('A' <= c && c <= 'Z') || ('0' <= c && c <= '9') || c == '_'
}

/// Whether `s` is an identifier (see `is_ident`).
pub fn is_identifier(s: &str) -> (r: bool)
    ensures
        r == is_ident(s@),
{
    let n = s.unicode_len();
    if n == 0 {
        return false;
    }
    let first = s.get_char(0);
    if '0' <= first && first <= '9' {
        return false;
    }
    if n == 1 && first == '_' {
        assert(s@ =~= seq!['_']);
        return false;
    }
    let mut i: usize = 0;
    while i < n
        invariant
            n == s@.len(),
            i <= n,
            forall|j: int| 0 <= j < i ==> is_ident_char(#[trigger] s@[j]),
        decreases n - i,
    {
        if !is_identifier_char(s.get_char(i)) {
            return false;
        }
        i = i + 1;
    }
    assert(n == 1 ==> s@ != seq!['_']) by {
        if n == 1 && s@ == seq!['_'] {
            assert(s@[0] == '_');
        }
    }
    true
}

/// The character sequences of some strings.
pub open spec fn views(names: Seq<String>) -> Seq<Seq<char>> {
    names.map_values(|n: String| n@)
}

/// Every name is an identifier.
pub open spec fn idents(names: Seq<Seq<char>>) -> bool {
    forall|i: int| 0 <= i < names.len() ==> is_ident(#[trigger] names[i])
}

/// The names are pairwise distinct.
pub open spec fn distinct(names: Seq<Seq<char>>) -> bool {
    forall|i: int, j: int|
        0 <= i < names.len() && 0 <= j < names.len() && i != j ==> #[trigger] names[i]
            != #[trigger] names[j]
}

/// The handle identifiers of some field names.
pub open spec fn handles(names: Seq<Seq<char>>) -> Seq<Seq<char>> {
    names.map_values(|n: Seq<char>| handle_ident_of(n))
}

/// Whether every string of `names` is an identifier.
pub fn all_identifiers(names: &Vec<String>) -> (r: bool)
    ensures
        r == idents(views(names@)),
{
    let mut i: usize = 0;
    while i < names.len()
        invariant
            i <= names@.len(),
            forall|k: int| 0 <= k < i ==> is_ident(#[trigger] views(names@)[k]),
        decreases names@.len() - i,
    {
        assert(views(names@)[i as int] == names@[i as int]@);
        if !is_identifier(names[i].as_str()) {
            return false;
        }
        i = i + 1;
    }
    true
}

/// Whether the strings of `names` are pairwise distinct.
pub fn distinct_strings(names: &Vec<String>) -> (r: bool)
    ensures
        r == distinct(views(names@)),
{
    let ghost v = views(names@);
    let n = names.len();
    let mut i: usize = 0;
    while i < n
        invariant
            n == names@.len(),
            v == views(names@),
            i <= n,
            forall|a: int, b: int| 0 <= a < i && 0 <= b < n && a != b ==> #[trigger] v[a] != #[trigger] v[b],
        decreases n - i,
    {
        let mut j: usize = 0;
        while j < n
            invariant
                n == names@.len(),
                v == views(names@),
                i < n,
                j <= n,
                forall|a: int, b: int|
                    0 <= a < i && 0 <= b < n && a != b ==> #[trigger] v[a] != #[trigger] v[b],
                forall|b: int| 0 <= b < j && i != b ==> v[i as int] != #[trigger] v[b],
            decreases n - j,
        {
            assert(v[i as int] == names@[i as int]@ && v[j as int] == names@[j as int]@);
            if i != j && names[i] == names[j] {
                return false;
            }
            j = j + 1;
        }
        i = i + 1;
    }
    assert forall|a: int, b: int|
        0 <= a < v.len() && 0 <= b < v.len() && a != b implies #[trigger] v[a] != #[trigger] v[b] by {
        if b < a {
            assert(v[b] != v[a]);
        }
    }
    true
}

/// The event name under which changes of `field_name` of `owner` are published.
pub fn event_name(owner: &str, field_name: &str) -> (r: String)
    ensures
        r@ == event_name_of(owner@, field_name@),
{
    let mut r = String::from_str(owner);
    let sep = "::";
    proof {
        reveal_strlit("::");
    }
    r.append(sep);
    r.append(field_name);
    r
}

proof fn lemma_pascal_step(s: Seq<char>, i: int, cap: bool)
    requires
        0 <= i < s.len(),
    ensures
        pascal_from(s.subrange(i, s.len() as int), cap) == (if s[i] == '_' {
            pascal_from(s.subrange(i + 1, s.len() as int), true)
        } else {
            seq![if cap { upper(s[i]) } else { s[i] }] + pascal_from(
                s.subrange(i + 1, s.len() as int),
                false,
            )
        }),
{
    let t = s.subrange(i, s.len() as int);
    assert(t[0] == s[i]);
    assert(t.drop_first() == s.subrange(i + 1, s.len() as int));
}

/// The handle identifier of a field: `F` followed by the field name in PascalCase.
///
/// It never equals the PascalCase field name itself, so a field named after its value
/// type never shares that type's identifier.
pub fn handle_ident(field_name: &str) -> (r: String)
    ensures
        r@ == handle_ident_of(field_name@),
        r@ != pascal(field_name@),
{
    let n = field_name.unicode_len();
    let marker = "F";
    proof {
        reveal_strlit("F");
    }
    let mut r = String::from_str(marker);
    let mut cap = true;
    let mut i: usize = 0;
    let ghost s = field_name@;
    assert(s.subrange(0, s.len() as int) == s);
    while i < n
        invariant
            n == s.len(),
            s == field_name@,
            i <= n,
            r@ + pascal_from(s.subrange(i as int, n as int), cap) == handle_ident_of(s),
        decreases n - i,
    {
        let c = field_name.get_char(i);
        proof {
            lemma_pascal_step(s, i as int, cap);
        }
        if c == '_' {
            cap = true;
        } else {
            let d = if cap { ascii_upper(c) } else { c };
            let ghost before = r@;
            push_char(&mut r, d);
            assert(r@ + pascal_from(s.subrange(i + 1, n as int), false) == before + (seq![d]
                + pascal_from(s.subrange(i + 1, n as int), false)));
            cap = false;
        }
        i = i + 1;
    }
    assert(s.subrange(n as int, n as int) =~= Seq::<char>::empty());
    assert(r@ == handle_ident_of(s));
    assert(r@.len() == pascal(s).len() + 1);
    r
}

} // verus!
