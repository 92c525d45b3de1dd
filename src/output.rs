use vstd::prelude::*;
use crate::text::{chars_of, string_of};

verus! {

/// `s` with each `\r\n` turned into `\n`.
pub open spec fn unix_newlines(s: Seq<char>) -> Seq<char>
    decreases s.len(),
{
    if s.len() == 0 {
        Seq::empty()
    } else if s.len() >= 2 && s[0] == '\r' && s[1] == '\n' {
        seq!['\n'] + unix_newlines(s.skip(2))
    } else {
        seq![s[0]] + unix_newlines(s.skip(1))
    }
}

/// `s` with each `\n` turned into a space.
pub open spec fn newlines_as_spaces(s: Seq<char>) -> Seq<char> {
    s.map_values(|c: char| if c == '\n' { ' ' } else { c })
}

/// The final form of a serialized document.
pub open spec fn finished(s: Seq<char>, remove_new_lines: bool) -> Seq<char> {
    if remove_new_lines {
        newlines_as_spaces(unix_newlines(s))
    } else {
        unix_newlines(s)
    }
}

/// Turns each `\r\n` of a serialized document into `\n`, then, when
/// `remove_new_lines` holds, each `\n` into a space.
pub fn finish_output(serialized: &str, remove_new_lines: bool) -> (r: String)
    ensures
        r@ == finished(serialized@, remove_new_lines),
        remove_new_lines ==> !r@.contains('\n'),
{
    let s = chars_of(serialized);
    let mut out: Vec<char> = Vec::new();
    let mut i: usize = 0;
    assert(s@.skip(0) =~= s@);
    while i < s.len()
        invariant
            i <= s.len(),
            s@ == serialized@,
            out@ + finished(s@.skip(i as int), remove_new_lines) == finished(
                s@,
                remove_new_lines,
            ),
        decreases s.len() - i,
    {
        let ghost rest = s@.skip(i as int);
        if s[i] == '\r' && i + 1 < s.len() && s[i + 1] == '\n' {
            assert(rest.skip(2) =~= s@.skip(i + 2));
            assert(rest[0] == '\r' && rest[1] == '\n');
            let c = if remove_new_lines { ' ' } else { '\n' };
            out.push(c);
            proof {
                let u = unix_newlines(rest.skip(2));
                assert(unix_newlines(rest) == seq!['\n'] + u);
                assert(newlines_as_spaces(seq!['\n'] + u) =~= seq![' '] + newlines_as_spaces(u));
                assert(out@ + finished(s@.skip(i + 2), remove_new_lines) =~= out@.drop_last() + (
                seq![c] + finished(rest.skip(2), remove_new_lines)));
            }
            i = i + 2;
        } else {
            assert(rest.skip(1) =~= s@.skip(i + 1));
            let c0 = s[i];
            let c = if remove_new_lines && c0 == '\n' { ' ' } else { c0 };
            out.push(c);
            proof {
                let u = unix_newlines(rest.skip(1));
                assert(unix_newlines(rest) == seq![c0] + u);
                assert(newlines_as_spaces(seq![c0] + u) =~= seq![if c0 == '\n' { ' ' } else { c0 }]
                    + newlines_as_spaces(u));
                assert(out@ + finished(s@.skip(i + 1), remove_new_lines) =~= out@.drop_last() + (
                seq![c] + finished(rest.skip(1), remove_new_lines)));
            }
            i = i + 1;
        }
    }
    assert(s@.skip(i as int) =~= Seq::<char>::empty());
    assert(out@ + finished(Seq::<char>::empty(), remove_new_lines) =~= out@);
    proof {
        newline_free_when_removed(serialized@);
    }
    string_of(&out)
}

/// With `remove_new_lines`, the output holds no `\n`.
pub proof fn newline_free_when_removed(s: Seq<char>)
    ensures
        !finished(s, true).contains('\n'),
{
    let t = finished(s, true);
    assert forall|k: int| 0 <= k < t.len() implies t[k] != '\n' by {}
}

/// Removing newlines changes nothing else: the output with
/// `remove_new_lines` is the one without it, each `\n` turned into a space.
pub proof fn newline_removal_only_spaces(s: Seq<char>)
    ensures
        finished(s, true) == newlines_as_spaces(finished(s, false)),
{
}

} // verus!
