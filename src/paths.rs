use vstd::prelude::*;
use crate::text::string_of;

verus! {

/// Joins `reference` onto the directory `base`, as a path join does on Unix:
/// an absolute reference replaces the base, and one separator is put between.
pub open spec fn join_path(base: Seq<char>, reference: Seq<char>) -> Seq<char> {
    if reference.len() > 0 && reference[0] == '/' {
        reference
    } else if base.len() == 0 {
        reference
    } else if base.last() == '/' {
        base + reference
    } else {
        base.push('/') + reference
    }
}

/// The directory that holds the file named by `path`: what stands before its
/// last separator, `/` for a file at the top, and nothing for a bare name.
pub open spec fn directory_of(path: Seq<char>) -> Seq<char> {
    match last_separator(path) {
        Some(i) => if i == 0 {
            seq!['/']
        } else {
            path.subrange(0, i)
        },
        None => Seq::empty(),
    }
}

/// The position of the last `/` of `path`, if it holds one.
pub open spec fn last_separator(path: Seq<char>) -> Option<int>
    decreases path.len(),
{
    if path.len() == 0 {
        None
    } else if path.last() == '/' {
        Some(path.len() - 1)
    } else {
        last_separator(path.drop_last())
    }
}

/// `path` with each backslash turned into a forward slash.
pub open spec fn forward_slashes(path: Seq<char>) -> Seq<char> {
    path.map_values(|c: char| if c == '\\' { '/' } else { c })
}

/// What `pathdiff::diff_paths` gives for `path` relative to `base`.
pub uninterp spec fn relative_path(path: Seq<char>, base: Seq<char>) -> Option<Seq<char>>;

/// Relies on `pathdiff::diff_paths`: the path that leads from `base` to `path`,
/// when there is one, which depends on the two paths alone.
#[verifier::external_body]
fn diff_paths(path: &str, base: &str) -> (r: Option<String>)
    ensures
        match r {
            Some(s) => relative_path(path@, base@) == Some(s@),
            None => relative_path(path@, base@) is None,
        },
{
    pathdiff::diff_paths(path, base).map(|p| p.to_string_lossy().into_owned())
}

/// The form a local `url(...)` argument takes once it has been moved from the
/// stylesheet at `css_file` to the document at `root`: resolved against the
/// stylesheet's directory, then made relative to `root` (kept whole where no
/// relative path leads there), with forward slashes.
pub open spec fn rebased(css_file: Seq<char>, reference: Seq<char>, root: Seq<char>) -> Seq<char> {
    let target = join_path(directory_of(css_file), reference);
    match relative_path(target, root) {
        Some(rel) => forward_slashes(rel),
        None => forward_slashes(target),
    }
}

/// Joins `reference` onto the directory `base`.
pub fn join(base: &str, reference: &str) -> (r: String)
    ensures
        r@ == join_path(base@, reference@),
{
    let rlen = reference.unicode_len();
    let blen = base.unicode_len();
    if rlen > 0 && reference.get_char(0) == '/' {
        return String::from_str(reference);
    }
    if blen == 0 {
        return String::from_str(reference);
    }
    let mut out = String::from_str(base);
    if base.get_char(blen - 1) != '/' {
        out.append("/");
        proof {
            reveal_strlit("/");
            assert("/"@ =~= seq!['/']);
        }
    }
    out.append(reference);
    out
}

/// The directory that holds the file named by `path`.
pub fn directory(path: &str) -> (r: String)
    ensures
        r@ == directory_of(path@),
{
    let chars = crate::text::chars_of(path);
    let mut i: usize = chars.len();
    assert(path@.subrange(0, i as int) =~= path@);
    while i > 0
        invariant
            i <= chars.len(),
            chars@ == path@,
            last_separator(path@) == last_separator(path@.subrange(0, i as int)),
        decreases i,
    {
        let ghost pre = path@.subrange(0, i as int);
        assert(pre.drop_last() =~= path@.subrange(0, i - 1));
        if chars[i - 1] == '/' {
            let mut head: Vec<char> = Vec::new();
            if i == 1 {
                head.push('/');
                assert(head@ =~= seq!['/']);
                return string_of(&head);
            }
            let mut j: usize = 0;
            while j < i - 1
                invariant
                    j <= i - 1,
                    i <= chars.len(),
                    head@ == chars@.subrange(0, j as int),
                decreases i - 1 - j,
            {
                head.push(chars[j]);
                assert(head@ =~= chars@.subrange(0, j + 1));
                j = j + 1;
            }
            return string_of(&head);
        }
        i = i - 1;
    }
    assert(path@.subrange(0, 0) =~= Seq::<char>::empty());
    String::new()
}

/// `path` with each backslash turned into a forward slash.
pub fn to_forward_slashes(path: &str) -> (r: String)
    ensures
        r@ == forward_slashes(path@),
{
    let chars = crate::text::chars_of(path);
    let mut out: Vec<char> = Vec::new();
    let mut i: usize = 0;
    while i < chars.len()
        invariant
            i <= chars.len(),
            chars@ == path@,
            out@ == forward_slashes(path@).subrange(0, i as int),
        decreases chars.len() - i,
    {
        let c = chars[i];
        out.push(if c == '\\' { '/' } else { c });
        assert(out@ =~= forward_slashes(path@).subrange(0, i + 1));
        i = i + 1;
    }
    assert(out@ =~= forward_slashes(path@));
    string_of(&out)
}

/// Moves a local `url(...)` argument of the stylesheet at `css_file` so that it
/// is relative to `root`.
pub fn rebase(css_file: &str, reference: &str, root: &str) -> (r: String)
    ensures
        r@ == rebased(css_file@, reference@, root@),
{
    let dir = directory(css_file);
    let target = join(dir.as_str(), reference);
    match diff_paths(target.as_str(), root) {
        Some(rel) => to_forward_slashes(rel.as_str()),
        None => to_forward_slashes(target.as_str()),
    }
}

} // verus!
