//! Text utilities of the protocol layer: hex and decimal rendering,
//! control-character sanitisation.

use vstd::prelude::*;
use crate::ext::push_char;

verus! {

/// True of the characters that sanitisation removes unless exempted: the
/// Unicode control characters (category Cc: the C0 range, DEL, and the C1
/// range).
pub open spec fn is_control_char(c: char) -> bool {
    (c as u32) < 0x20 || (0x7f <= (c as u32) && (c as u32) <= 0x9f)
}

/// True of the characters that survive sanitisation: everything except
/// control characters, with newline and tab exempted.
pub open spec fn keeps_char(c: char) -> bool {
    !is_control_char(c) || c == '\n' || c == '\t'
}

/// The text with every control character other than newline and tab removed.
pub open spec fn spec_sanitize(s: Seq<char>) -> Seq<char> {
    s.filter(|c: char| keeps_char(c))
}

/// Strip control characters (other than newline and tab) before display.
/// Applied only to rendered output, never to stored or transmitted content.
pub fn sanitize_text(text: &str) -> (r: String)
    ensures
        r@ == spec_sanitize(text@),
{
    let len = text.unicode_len();
    let mut out = String::new();
    let mut i: usize = 0;
    while i < len
        invariant
            len == text@.len(),
            i <= len,
            out@ == spec_sanitize(text@.subrange(0, i as int)),
        decreases len - i,
    {
        let c = text.get_char(i);
        let u = c as u32;
        let keep = !(u < 0x20 || (0x7f <= u && u <= 0x9f)) || c == '\n' || c == '\t';
        proof {
            reveal(Seq::filter);
            assert(text@.subrange(0, i + 1).drop_last() =~= text@.subrange(0, i as int));
            assert(text@.subrange(0, i + 1).last() == c);
        }
        if keep {
            push_char(&mut out, c);
            proof {
                assert(out@ =~= spec_sanitize(text@.subrange(0, i + 1)));
            }
        }
        i = i + 1;
    }
    proof {
        assert(text@.subrange(0, len as int) =~= text@);
    }
    out
}

/// The lowercase hex character for a value below 16.
pub open spec fn hex_digit(d: u8) -> char {
    if d == 0 { '0' } else if d == 1 { '1' } else if d == 2 { '2' } else if d == 3 { '3' }
    else if d == 4 { '4' } else if d == 5 { '5' } else if d == 6 { '6' } else if d == 7 { '7' }
    else if d == 8 { '8' } else if d == 9 { '9' } else if d == 10 { 'a' } else if d == 11 { 'b' }
    else if d == 12 { 'c' } else if d == 13 { 'd' } else if d == 14 { 'e' } else { 'f' }
}

/// Lowercase hex rendering of a byte sequence: two digits per byte, high
/// nibble first.
pub open spec fn spec_hex_lower(bytes: Seq<u8>) -> Seq<char> {
    Seq::new(
        bytes.len() * 2,
        |i: int| if i % 2 == 0 { hex_digit(bytes[i / 2] / 16) } else { hex_digit(bytes[i / 2] % 16) },
    )
}

/// True of a lowercase hex digit.
pub open spec fn is_hex_lower_char(c: char) -> bool {
    (48 <= (c as u32) && (c as u32) <= 57) || (97 <= (c as u32) && (c as u32) <= 102)
}

pub proof fn lemma_hex_lower_chars(bytes: Seq<u8>)
    ensures
        spec_hex_lower(bytes).len() == bytes.len() * 2,
        forall|i: int| 0 <= i < spec_hex_lower(bytes).len()
            ==> is_hex_lower_char(#[trigger] spec_hex_lower(bytes)[i]),
{
    assert forall|i: int| 0 <= i < spec_hex_lower(bytes).len()
        implies is_hex_lower_char(#[trigger] spec_hex_lower(bytes)[i]) by {
        let d = if i % 2 == 0 { bytes[i / 2] / 16 } else { bytes[i / 2] % 16 };
        assert(d < 16);
        assert(is_hex_lower_char(hex_digit(d)));
    }
}

/// The decimal character for a value below 10.
pub open spec fn dec_digit(d: u8) -> char {
    if d == 0 { '0' } else if d == 1 { '1' } else if d == 2 { '2' } else if d == 3 { '3' }
    else if d == 4 { '4' } else if d == 5 { '5' } else if d == 6 { '6' } else if d == 7 { '7' }
    else if d == 8 { '8' } else { '9' }
}

/// Decimal rendering of a natural number, most significant digit first, with
/// no leading zeros (a lone zero renders as "0").
pub open spec fn spec_dec(n: nat) -> Seq<char>
    decreases n,
{
    if n < 10 {
        seq![dec_digit(n as u8)]
    } else {
        spec_dec(n / 10) + seq![dec_digit((n % 10) as u8)]
    }
}

fn dec_digit_exec(d: u8) -> (c: char)
    requires
        d < 10,
    ensures
        c == dec_digit(d),
{
    if d == 0 { '0' } else if d == 1 { '1' } else if d == 2 { '2' } else if d == 3 { '3' }
    else if d == 4 { '4' } else if d == 5 { '5' } else if d == 6 { '6' } else if d == 7 { '7' }
    else if d == 8 { '8' } else { '9' }
}

/// Decimal rendering of an unsigned value.
pub fn dec_string(n: u64) -> (r: String)
    ensures
        r@ == spec_dec(n as nat),
    decreases n,
{
    if n < 10 {
        let mut s = String::new();
        push_char(&mut s, dec_digit_exec(n as u8));
        proof {
            assert(s@ =~= spec_dec(n as nat));
        }
        s
    } else {
        let mut s = dec_string(n / 10);
        push_char(&mut s, dec_digit_exec((n % 10) as u8));
        proof {
            assert(s@ =~= spec_dec(n as nat));
        }
        s
    }
}

/// Index of the first occurrence of a character, if any.
pub open spec fn spec_find_char(s: Seq<char>, c: char) -> Option<int>
    decreases s.len(),
{
    if s.len() == 0 {
        None
    } else if s[0] == c {
        Some(0)
    } else {
        match spec_find_char(s.drop_first(), c) {
            None => None,
            Some(i) => Some(i + 1),
        }
    }
}

/// What the first-occurrence index means.
pub proof fn lemma_find_char_props(s: Seq<char>, c: char)
    ensures
        match spec_find_char(s, c) {
            Some(i) => 0 <= i < s.len() && s[i] == c
                && forall|j: int| 0 <= j < i ==> s[j] != c,
            None => forall|j: int| 0 <= j < s.len() ==> s[j] != c,
        },
    decreases s.len(),
{
    if s.len() > 0 && s[0] != c {
        lemma_find_char_props(s.drop_first(), c);
        assert forall|j: int| 1 <= j < s.len() implies s[j] == s.drop_first()[j - 1] by {}
    }
}

/// Find the first occurrence of a character.
pub fn find_char(s: &str, c: char) -> (r: Option<usize>)
    ensures
        r matches Some(i) ==> spec_find_char(s@, c) == Some(i as int),
        r is None ==> spec_find_char(s@, c) is None,
{
    proof {
        lemma_find_char_props(s@, c);
    }
    let len = s.unicode_len();
    let mut i: usize = 0;
    while i < len
        invariant
            len == s@.len(),
            i <= len,
            forall|j: int| 0 <= j < i ==> s@[j] != c,
        decreases len - i,
    {
        if s.get_char(i) == c {
            proof {
                lemma_find_char_props(s@, c);
                match spec_find_char(s@, c) {
                    None => {
                        assert(false);
                    },
                    Some(k) => {
                        if k < i {
                            assert(s@[k] == c);
                        } else if k > i {
                            assert(s@[i as int] != c);
                        }
                    },
                }
            }
            return Some(i);
        }
        i = i + 1;
    }
    proof {
        lemma_find_char_props(s@, c);
        match spec_find_char(s@, c) {
            None => {},
            Some(k) => {
                assert(s@[k] == c);
            },
        }
    }
    None
}

/// True when the legacy separator ": " stands at index `i`.
pub open spec fn sep_at(s: Seq<char>, i: int) -> bool {
    0 <= i && i + 2 <= s.len() && s[i] == ':' && s[i + 1] == ' '
}

/// Index of the first occurrence of the legacy separator ": ", if any.
pub open spec fn spec_find_sep(s: Seq<char>) -> Option<int>
    decreases s.len(),
{
    if s.len() < 2 {
        None
    } else if s[0] == ':' && s[1] == ' ' {
        Some(0)
    } else {
        match spec_find_sep(s.drop_first()) {
            None => None,
            Some(i) => Some(i + 1),
        }
    }
}

/// What the first-separator index means.
pub proof fn lemma_find_sep_props(s: Seq<char>)
    ensures
        match spec_find_sep(s) {
            Some(i) => sep_at(s, i) && forall|j: int| 0 <= j < i ==> !sep_at(s, j),
            None => forall|j: int| !sep_at(s, j),
        },
    decreases s.len(),
{
    if s.len() >= 2 && !(s[0] == ':' && s[1] == ' ') {
        lemma_find_sep_props(s.drop_first());
        let t = s.drop_first();
        assert forall|j: int| #[trigger] sep_at(s, j) && j >= 1 implies sep_at(t, j - 1) by {
            assert(t[j - 1] == s[j] && t[j] == s[j + 1]);
        }
        assert forall|j: int| #[trigger] sep_at(t, j) implies sep_at(s, j + 1) by {
            assert(t[j] == s[j + 1] && t[j + 1] == s[j + 2]);
        }
        match spec_find_sep(t) {
            Some(i) => {
                assert forall|j: int| 0 <= j < i + 1 implies !sep_at(s, j) by {
                    if j == 0 {
                    } else {
                        assert(!sep_at(t, j - 1));
                    }
                }
            },
            None => {
                assert forall|j: int| !sep_at(s, j) by {
                    if sep_at(s, j) {
                        if j == 0 {
                        } else {
                            assert(sep_at(t, j - 1));
                        }
                    }
                }
            },
        }
    } else if s.len() < 2 {
        assert forall|j: int| !sep_at(s, j) by {}
    }
}

/// Find the first occurrence of the legacy separator ": ".
pub fn find_sep(s: &str) -> (r: Option<usize>)
    ensures
        r matches Some(i) ==> spec_find_sep(s@) == Some(i as int),
        r is None ==> spec_find_sep(s@) is None,
{
    proof {
        lemma_find_sep_props(s@);
    }
    let len = s.unicode_len();
    if len < 2 {
        return None;
    }
    let mut i: usize = 0;
    while i < len - 1
        invariant
            len == s@.len(),
            2 <= len,
            i <= len - 1,
            forall|j: int| 0 <= j < i ==> !sep_at(s@, j),
        decreases len - i,
    {
        if s.get_char(i) == ':' && s.get_char(i + 1) == ' ' {
            proof {
                lemma_find_sep_props(s@);
                assert(sep_at(s@, i as int));
                match spec_find_sep(s@) {
                    None => {
                        assert(false);
                    },
                    Some(k) => {
                        if k < i {
                            assert(!sep_at(s@, k));
                        } else if k > i {
                            assert(!sep_at(s@, i as int));
                        }
                    },
                }
            }
            return Some(i);
        }
        proof {
            assert(!sep_at(s@, i as int));
        }
        i = i + 1;
    }
    proof {
        assert forall|j: int| !sep_at(s@, j) by {
            if sep_at(s@, j) {
                assert(0 <= j < len - 1);
            }
        }
        lemma_find_sep_props(s@);
        match spec_find_sep(s@) {
            None => {},
            Some(k) => {
                assert(!sep_at(s@, k));
            },
        }
    }
    None
}

/// The display name that legacy plain text of the shape `name@prefix: text`
/// carries: the part before the first `@` of the part before the first ": ";
/// the fallback where the shape does not match.
pub open spec fn spec_legacy_name(s: Seq<char>, fallback: Seq<char>) -> Seq<char> {
    match spec_find_sep(s) {
        None => fallback,
        Some(i) => match spec_find_char(s.subrange(0, i), '@') {
            None => fallback,
            Some(j) => s.subrange(0, j),
        },
    }
}

/// Recover the sender's display name from legacy plain text, falling back to
/// the given name where the legacy shape does not match.
pub fn extract_legacy_name(text: &str, fallback: &str) -> (r: String)
    ensures
        r@ == spec_legacy_name(text@, fallback@),
{
    match find_sep(text) {
        None => fallback.to_owned(),
        Some(i) => {
            proof {
                lemma_find_sep_props(text@);
            }
            let head = text.substring_char(0, i);
            match find_char(head, '@') {
                None => fallback.to_owned(),
                Some(j) => {
                    proof {
                        lemma_find_char_props(head@, '@');
                        assert(text@.subrange(0, j as int) =~= head@.subrange(0, j as int));
                    }
                    head.substring_char(0, j).to_owned()
                },
            }
        },
    }
}

/// Law: on a buffer of the exact legacy shape `name@prefix: text`, where the
/// name carries no `@` and the separator first occurs where the shape puts
/// it, extraction recovers the name exactly.
pub proof fn lemma_legacy_name_exact(
    name: Seq<char>,
    prefix: Seq<char>,
    text: Seq<char>,
    fallback: Seq<char>,
)
    requires
        forall|j: int| 0 <= j < name.len() ==> name[j] != '@',
        ({
            let s = name + seq!['@'] + prefix + seq![':', ' '] + text;
            forall|j: int| 0 <= j < name.len() + 1 + prefix.len() ==> !sep_at(s, j)
        }),
    ensures
        spec_legacy_name(name + seq!['@'] + prefix + seq![':', ' '] + text, fallback) == name,
{
    let s = name + seq!['@'] + prefix + seq![':', ' '] + text;
    let h = name.len() + 1 + prefix.len();
    assert(sep_at(s, h as int));
    lemma_find_sep_props(s);
    match spec_find_sep(s) {
        None => {
            assert(false);
        },
        Some(i) => {
            assert(i == h) by {
                if i < h {
                    assert(!sep_at(s, i));
                } else if i > h {
                    assert(!sep_at(s, h as int));
                }
            }
            let head = s.subrange(0, i);
            assert(head[name.len() as int] == '@');
            lemma_find_char_props(head, '@');
            match spec_find_char(head, '@') {
                None => {
                    assert(false);
                },
                Some(j) => {
                    assert(j == name.len()) by {
                        if j < name.len() {
                            assert(head[j] == name[j]);
                        }
                    }
                    assert(s.subrange(0, j) =~= name);
                },
            }
        },
    }
}

/// Law: on a buffer with no ": " separator at all, extraction returns the
/// fallback name.
pub proof fn lemma_legacy_name_fallback(s: Seq<char>, fallback: Seq<char>)
    requires
        forall|j: int| !sep_at(s, j),
    ensures
        spec_legacy_name(s, fallback) == fallback,
{
    lemma_find_sep_props(s);
    match spec_find_sep(s) {
        None => {},
        Some(i) => {
            assert(!sep_at(s, i));
        },
    }
}

/// The short form of a peer identity: its first eight characters, or the
/// whole identity where it is shorter.
pub open spec fn spec_prefix8(s: Seq<char>) -> Seq<char> {
    if s.len() <= 8 {
        s
    } else {
        s.subrange(0, 8)
    }
}

/// The short form of a peer identity.
pub fn id_prefix8(s: &str) -> (r: String)
    ensures
        r@ == spec_prefix8(s@),
{
    let len = s.unicode_len();
    if len <= 8 {
        proof {
            assert(s@.subrange(0, len as int) =~= s@);
        }
        s.substring_char(0, len).to_owned()
    } else {
        s.substring_char(0, 8).to_owned()
    }
}

} // verus!
