//! Which texts `format_ident!` can turn into an identifier. It makes one
//! with `Ident::new`, or with `Ident::new_raw` for a text that starts with
//! `r#`, and both panic on a text that is no identifier.
use vstd::prelude::*;

verus! {

/// Whether `c` has Unicode's `XID_Start` property.
pub uninterp spec fn xid_start(c: char) -> bool;

/// Whether `c` has Unicode's `XID_Continue` property.
pub uninterp spec fn xid_continue(c: char) -> bool;

pub open spec fn is_ascii_letter(c: char) -> bool {
    ('a' <= c && c <= 'z') || ('A' <= c && c <= 'Z')
}

/// Calls `unicode_ident::is_xid_start`, a lookup in Unicode's tables. The
/// contract names its result, and states it for ASCII, where exactly the
/// letters have the property.
#[verifier::external_body]
fn is_xid_start(c: char) -> (r: bool)
    ensures
        r == xid_start(c),
        (c as u32) < 128 ==> (r <==> is_ascii_letter(c)),
{
    unicode_ident::is_xid_start(c)
}

/// Calls `unicode_ident::is_xid_continue`, a lookup in Unicode's tables.
/// The contract names its result, and states it for ASCII, where exactly
/// the letters, the digits and `_` have the property.
#[verifier::external_body]
fn is_xid_continue(c: char) -> (r: bool)
    ensures
        r == xid_continue(c),
        (c as u32) < 128 ==> (r <==> (is_ascii_letter(c) || ('0' <= c && c <= '9') || c == '_')),
{
    unicode_ident::is_xid_continue(c)
}

/// The text of a plain identifier: `_` or an `XID_Start` character, then
/// `XID_Continue` characters.
pub open spec fn ident_text(t: Seq<char>) -> bool {
    &&& t.len() > 0
    &&& t[0] == '_' || xid_start(t[0])
    &&& forall|i: int| 1 <= i < t.len() ==> xid_continue(#[trigger] t[i])
}

/// The words that cannot follow `r#`.
pub open spec fn raw_refused(t: Seq<char>) -> bool {
    t == "_"@ || t == "super"@ || t == "self"@ || t == "Self"@ || t == "crate"@
}

pub open spec fn starts_raw(s: Seq<char>) -> bool {
    s.len() >= 2 && s[0] == 'r' && s[1] == '#'
}

/// `format_ident!` makes an identifier of the text `s` without panicking:
/// after an `r#`, a plain identifier's text that may be raw; else a plain
/// identifier's text.
pub open spec fn ident_formattable(s: Seq<char>) -> bool {
    if starts_raw(s) {
        ident_text(s.skip(2)) && !raw_refused(s.skip(2))
    } else {
        ident_text(s)
    }
}

/// Whether the characters of `s` from `start` on form a plain identifier.
fn ident_text_from(s: &str, start: usize) -> (r: bool)
    requires
        start <= s@.len(),
    ensures
        r == ident_text(s@.skip(start as int)),
{
    let n = s.unicode_len();
    let ghost t = s@.skip(start as int);
    if start >= n {
        return false;
    }
    let first = s.get_char(start);
    assert(t[0] == first);
    if !(first == '_' || is_xid_start(first)) {
        return false;
    }
    let mut i = start + 1;
    while i < n
        invariant
            n == s@.len(),
            start < i <= n,
            t == s@.skip(start as int),
            forall|j: int| 1 <= j < i - start ==> xid_continue(#[trigger] t[j]),
        decreases n - i,
    {
        let c = s.get_char(i);
        assert(t[i - start] == c);
        if !is_xid_continue(c) {
            return false;
        }
        i = i + 1;
    }
    true
}

/// Whether `format_ident!` makes an identifier of the text `s`, rather than
/// panicking.
pub fn formattable_ident(s: &str) -> (r: bool)
    ensures
        r == ident_formattable(s@),
{
    let n = s.unicode_len();
    if n >= 2 && s.get_char(0) == 'r' && s.get_char(1) == '#' {
        let rest = s.substring_char(2, n).to_owned();
        assert(rest@ =~= s@.skip(2));
        let refused = crate::syntax::text_is(&rest, "_") || crate::syntax::text_is(&rest, "super")
            || crate::syntax::text_is(&rest, "self") || crate::syntax::text_is(&rest, "Self")
            || crate::syntax::text_is(&rest, "crate");
        ident_text_from(s, 2) && !refused
    } else {
        assert(s@.skip(0) =~= s@);
        ident_text_from(s, 0)
    }
}

} // verus!
