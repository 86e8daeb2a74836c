//! Text helpers for window buttons and menus.
use vstd::prelude::*;
use vstd::string::StrSliceExecFns;
use vstd::string::StringExecFns;

use crate::text::{
    chars_of, has_prefix, remove_all, remove_all_str, string_from_chars, string_of_span,
};

verus! {

/// `command` without the desktop-entry field codes `%u`, `%U`, `%f` and
/// `%F`, each removed in that order as `str::replace` removes it.
pub open spec fn exec_args_stripped(command: Seq<char>) -> Seq<char> {
    remove_all(remove_all(remove_all(remove_all(command, "%u"@), "%U"@), "%f"@), "%F"@)
}

/// Strips desktop file Exec field placeholders (%u, %U, %f, %F).
pub fn strip_exec_args(command: &str) -> (r: String)
    ensures
        r@ == exec_args_stripped(command@),
{
    let cs = chars_of(command);
    let a = remove_all_str(&cs, "%u");
    let b = remove_all_str(&a, "%U");
    let c = remove_all_str(&b, "%f");
    let d = remove_all_str(&c, "%F");
    string_from_chars(d.as_slice())
}

/// `text` fitted into `max_len` characters: kept whole where it fits; else
/// its first `max_len - 3` characters followed by `"..."`, or, where the
/// limit leaves no room for the dots, its first `max_len` characters.
pub open spec fn truncated(text: Seq<char>, max_len: nat) -> Seq<char> {
    if text.len() <= max_len {
        text
    } else if max_len >= 3 {
        text.take(max_len - 3) + "..."@
    } else {
        text.take(max_len as int)
    }
}

/// Shortens `text` to at most `max_len` characters, ending a shortened
/// text with `"..."` where the limit leaves room for it.
pub fn truncate_text(text: &str, max_len: usize) -> (r: String)
    ensures
        r@ == truncated(text@, max_len as nat),
        r@.len() <= max_len,
{
    proof {
        lemma_truncated_shape(text@, max_len as nat);
    }
    let n = text.unicode_len();
    if n > max_len {
        let cs = chars_of(text);
        if max_len >= 3 {
            let mut t = string_of_span(&cs, 0, max_len - 3);
            t.append("...");
            t
        } else {
            string_of_span(&cs, 0, max_len)
        }
    } else {
        text.to_owned()
    }
}

/// `s` holds the two characters `'%'` and `c` side by side.
pub open spec fn has_code(s: Seq<char>, c: char) -> bool {
    exists|i: int| 0 <= i < s.len() - 1 && #[trigger] s[i] == '%' && s[i + 1] == c
}

proof fn lemma_remove_code(s: Seq<char>, x: char)
    requires
        x != '%',
        !has_code(s, '%'),
    ensures
        !has_code(remove_all(s, seq!['%', x]), '%'),
        !has_code(remove_all(s, seq!['%', x]), x),
        forall|y: char| !#[trigger] has_code(s, y) ==> !has_code(remove_all(s, seq!['%', x]), y),
    decreases s.len(),
{
    let p = seq!['%', x];
    let r = remove_all(s, p);
    if s.len() == 0 {
    } else if has_prefix(s, p) {
        let t = s.skip(2);
        assert forall|y: char| !has_code(s, y) implies !has_code(t, y) by {
            if has_code(t, y) {
                let i = choose|i: int| 0 <= i < t.len() - 1 && #[trigger] t[i] == '%' && t[i + 1] == y;
                assert(s[i + 2] == '%');
            }
        }
        lemma_remove_code(t, x);
    } else {
        let t = s.drop_first();
        assert forall|y: char| !has_code(s, y) implies !has_code(t, y) by {
            if has_code(t, y) {
                let i = choose|i: int| 0 <= i < t.len() - 1 && #[trigger] t[i] == '%' && t[i + 1] == y;
                assert(s[i + 1] == '%');
            }
        }
        lemma_remove_code(t, x);
        let rt = remove_all(t, p);
        assert(r == seq![s[0]] + rt);
        assert forall|c: char| (c == '%' || c == x || !has_code(s, c)) implies !has_code(r, c) by {
            if has_code(r, c) {
                let i = choose|i: int| 0 <= i < r.len() - 1 && #[trigger] r[i] == '%' && r[i + 1] == c;
                if i == 0 {
                    assert(s[0] == '%');
                    assert(t.len() > 0);
                    assert(t[0] == s[1]);
                    assert(s[1] != '%') by {
                        if s[1] == '%' {
                            assert(s[0] == '%' && s[1] == '%');
                        }
                    }
                    assert(!has_prefix(t, p));
                    assert(rt[0] == t[0]);
                    assert(s.take(2) =~= seq!['%', s[1]]);
                } else {
                    assert(rt[i - 1] == '%' && rt[i] == c);
                }
            }
        }
    }
}

/// A command line without `"%%"` keeps no `%u`, `%U`, `%f` or `%F` field
/// code after `strip_exec_args`.
pub proof fn lemma_stripped_command_has_no_field_codes(command: Seq<char>)
    requires
        !has_code(command, '%'),
    ensures
        !has_code(exec_args_stripped(command), 'u'),
        !has_code(exec_args_stripped(command), 'U'),
        !has_code(exec_args_stripped(command), 'f'),
        !has_code(exec_args_stripped(command), 'F'),
{
    reveal_strlit("%u");
    reveal_strlit("%U");
    reveal_strlit("%f");
    reveal_strlit("%F");
    assert("%u"@ =~= seq!['%', 'u']);
    assert("%U"@ =~= seq!['%', 'U']);
    assert("%f"@ =~= seq!['%', 'f']);
    assert("%F"@ =~= seq!['%', 'F']);
    let a = remove_all(command, "%u"@);
    lemma_remove_code(command, 'u');
    let b = remove_all(a, "%U"@);
    lemma_remove_code(a, 'U');
    let c = remove_all(b, "%f"@);
    lemma_remove_code(b, 'f');
    lemma_remove_code(c, 'F');
}

/// A label never holds more than `max_len` characters; a text within the
/// limit is kept whole; a longer one keeps its first `max_len - 3`
/// characters and ends with `"..."` where the limit is at least 3.
pub proof fn lemma_truncated_shape(text: Seq<char>, max_len: nat)
    ensures
        truncated(text, max_len).len() <= max_len,
        text.len() <= max_len ==> truncated(text, max_len) == text,
        text.len() > max_len && max_len >= 3 ==> truncated(text, max_len).take(max_len - 3)
            == text.take(max_len - 3) && truncated(text, max_len).skip(max_len - 3) == "..."@,
{
    reveal_strlit("...");
    if text.len() > max_len && max_len >= 3 {
        let t = text.take(max_len - 3) + "..."@;
        assert(t.take(max_len - 3) =~= text.take(max_len - 3));
        assert(t.skip(max_len - 3) =~= "..."@);
    }
}

} // verus!
