//! Names of devices and rooms.
//!
//! A name has 1 to 32 characters: small letters, digits, `-` and `_`. White space
//! around it is dropped and capitals are made small before it is judged.
use vstd::prelude::*;
use vstd::string::*;
use vstd::utf8::*;
use crate::outside::{quote, quoted};
use crate::text::{ascii_lower, is_digit, is_space, lowercase, lowered, trim, trimmed};

verus! {

/// Whether a character may stand in a name.
pub open spec fn is_alias_char(c: char) -> bool {
    ('a' <= c && c <= 'z') || is_digit(c) || c == '-' || c == '_'
}

/// A name as it is compared: without white space around it, in lower case.
pub open spec fn canonical(raw: Seq<char>) -> Seq<char> {
    lowered(trimmed(raw))
}

/// Whether a canonical name obeys the rules.
pub open spec fn is_alias(name: Seq<char>) -> bool {
    &&& 1 <= encode_utf8(name).len() <= 32
    &&& forall|i: int| 0 <= i < name.len() ==> is_alias_char(#[trigger] name[i])
}

/// What is wrong with a canonical name.
pub open spec fn alias_error(name: Seq<char>) -> Seq<char> {
    if name.len() == 0 {
        "别名不能为空"@
    } else if encode_utf8(name).len() > 32 {
        "别名最长 32 个字符"@
    } else {
        "别名 "@ + quoted(name) + " 非法：只能包含小写字母、数字、- 与 _"@
    }
}

/// `s` without white space around it, in lower case.
pub fn canonical_name(s: &str) -> (r: String)
    ensures
        r@ == canonical(s@),
{
    lowercase(trim(s))
}

/// Brings a name into canonical form and checks it.
pub fn checked_alias(raw: &str) -> (r: Result<String, String>)
    ensures
        match r {
            Ok(name) => name@ == canonical(raw@) && is_alias(name@),
            Err(e) => !is_alias(canonical(raw@)) && e@ == alias_error(canonical(raw@)),
        },
{
    let name = canonical_name(raw);
    proof {
        if name@.len() == 0 {
            assert(encode_utf8(name@).len() == 0);
        } else {
            encode_utf8_first_scalar(name@);
            encode_utf8_decode_utf8(name@);
            if encode_utf8(name@).len() == 0 {
                assert(encode_utf8(Seq::<char>::empty()) =~= encode_utf8(name@));
                encode_utf8_decode_utf8(Seq::<char>::empty());
            }
        }
    }
    if name.as_str().is_empty() {
        return Err("别名不能为空".to_owned());
    }
    if name.as_str().as_bytes().len() > 32 {
        return Err("别名最长 32 个字符".to_owned());
    }
    let n: usize = name.as_str().unicode_len();
    let mut i: usize = 0;
    while i < n
        invariant
            i <= n,
            n == name@.len(),
            n > 0,
            1 <= encode_utf8(name@).len() <= 32,
            name@ == canonical(raw@),
            forall|j: int| 0 <= j < i ==> is_alias_char(#[trigger] name@[j]),
        decreases n - i,
    {
        let c = name.as_str().get_char(i);
        if !(('a' <= c && c <= 'z') || ('0' <= c && c <= '9') || c == '-' || c == '_') {
            assert(!is_alias_char(name@[i as int]));
            let mut e = "别名 ".to_owned();
            e.append(quote(name.as_str()).as_str());
            e.append(" 非法：只能包含小写字母、数字、- 与 _");
            return Err(e);
        }
        i = i + 1;
    }
    Ok(name)
}

/// Checking a name again changes nothing: a name that passed is its own canonical
/// form and passes again.
pub proof fn checked_names_are_stable(name: Seq<char>)
    requires
        is_alias(name),
    ensures
        canonical(name) == name,
{
    assert(encode_utf8(Seq::<char>::empty()).len() == 0);
    assert(name.len() > 0) by {
        if name.len() == 0 {
            assert(name =~= Seq::<char>::empty());
        }
    }
    assert(is_alias_char(name[0]) && is_alias_char(name.last()));
    assert(!is_space(name[0]) && !is_space(name.last()));
    assert(trimmed(name) == name);
    assert(is_ascii_chars(name)) by {
        assert forall|i: int| 0 <= i < name.len() implies '\0' <= #[trigger] name[i] <= '\u{7f}' by {
            assert(is_alias_char(name[i]));
        }
    }
    let small = name.map_values(|c: char| ascii_lower(c));
    assert forall|i: int| 0 <= i < name.len() implies small[i] == name[i] by {
        assert(is_alias_char(name[i]));
    }
    assert(small =~= name);
}

/// A name obeys the rules just when it has one to thirty-two characters, all of them small
/// letters, digits, dashes and underscores.
pub proof fn names_obey_the_rules(name: Seq<char>)
    ensures
        is_alias(name) <==> 1 <= name.len() <= 32 && forall|i: int|
            0 <= i < name.len() ==> {
                let c = #[trigger] name[i];
                ('a' <= c && c <= 'z') || ('0' <= c && c <= '9') || c == '-' || c == '_'
            },
{
    if forall|i: int| 0 <= i < name.len() ==> is_alias_char(#[trigger] name[i]) {
        assert(is_ascii_chars(name)) by {
            assert forall|i: int| 0 <= i < name.len() implies '\0' <= #[trigger] name[i]
                <= '\u{7f}' by {
                assert(is_alias_char(name[i]));
            }
        }
        is_ascii_chars_encode_utf8(name);
    }
}

/// Two ASCII names that differ in capitals and small letters only, and in white space
/// around them, are the same name; and its form has no capitals.
pub proof fn names_ignore_case(a: Seq<char>, b: Seq<char>)
    requires
        is_ascii_chars(trimmed(a)) && is_ascii_chars(trimmed(b)),
        trimmed(a).len() == trimmed(b).len(),
        forall|i: int|
            0 <= i < trimmed(a).len() ==> {
                let x = #[trigger] trimmed(a)[i];
                let y = trimmed(b)[i];
                x == y || ('A' <= x && x <= 'Z' && y as u32 == x as u32 + 32) || ('A' <= y && y
                    <= 'Z' && x as u32 == y as u32 + 32)
            },
    ensures
        canonical(a) == canonical(b),
        forall|i: int|
            0 <= i < canonical(a).len() ==> !('A' <= #[trigger] canonical(a)[i] && canonical(a)[i]
                <= 'Z'),
{
    let x = trimmed(a);
    let y = trimmed(b);
    assert forall|i: int| 0 <= i < x.len() implies ascii_lower(#[trigger] x[i]) == ascii_lower(
        y[i],
    ) by {}
    assert(canonical(a) =~= canonical(b));
    assert forall|i: int| 0 <= i < canonical(a).len() implies !('A' <= #[trigger] canonical(a)[i]
        && canonical(a)[i] <= 'Z') by {
        assert(canonical(a)[i] == ascii_lower(x[i]));
    }
}

} // verus!
