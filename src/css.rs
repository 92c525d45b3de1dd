use vstd::prelude::*;
use crate::error::{ErrorView, FilePathError};
use crate::paths::{join, join_path, rebase, rebased};
use crate::store::{invalid_utf8_message, lookup, text_of, utf8_text, FileStore, OutcomeView, ReadOutcome};
use crate::text::{chars_of, contains_exec, contains_seq, occurs_at_exec, starts_with_seq};

verus! {

/// A stretch of stylesheet text: plain text when `arg` is `None`, else one
/// match of a pattern, whose argument is `arg`.
#[derive(Debug)]
pub struct Piece {
    pub text: String,
    pub arg: Option<String>,
}

impl Piece {
    pub open spec fn view(&self) -> (Seq<char>, Option<Seq<char>>) {
        (
            self.text@,
            match self.arg {
                Some(a) => Some(a@),
                None => None,
            },
        )
    }
}

pub open spec fn pieces_view(ps: Seq<Piece>) -> Seq<(Seq<char>, Option<Seq<char>>)> {
    ps.map_values(|p: Piece| p@)
}

/// The text of the pieces, one after the other.
pub open spec fn joined_text(ps: Seq<(Seq<char>, Option<Seq<char>>)>) -> Seq<char>
    decreases ps.len(),
{
    if ps.len() == 0 {
        Seq::empty()
    } else {
        joined_text(ps.drop_last()) + ps.last().0
    }
}

/// Each match's argument stands inside the matched text.
pub open spec fn args_within(ps: Seq<(Seq<char>, Option<Seq<char>>)>) -> bool {
    forall|k: int|
        0 <= k < ps.len() && ps[k].1 is Some ==> contains_seq(#[trigger] ps[k].0, ps[k].1->0)
}

/// What removing every `/* ... */` comment leaves of `css`.
pub uninterp spec fn comments_removed(css: Seq<char>) -> Seq<char>;

/// `css` cut at each `url(...)`, each match carrying its argument.
pub uninterp spec fn url_split(css: Seq<char>) -> Seq<(Seq<char>, Option<Seq<char>>)>;

/// `css` cut at each `@import url(...);` statement, each match carrying the
/// imported reference.
pub uninterp spec fn import_split(css: Seq<char>) -> Seq<(Seq<char>, Option<Seq<char>>)>;

/// Relies on `regex::Regex::replace_all`: every match of the block-comment
/// pattern replaced by nothing, which depends on the text alone.
#[verifier::external_body]
fn strip_comments(css: &str) -> (r: String)
    ensures
        r@ == comments_removed(css@),
{
    let re = regex::Regex::new(r#"/\*[^*]*\*+(?:[^/*][^*]*\*+)*/"#).unwrap();
    re.replace_all(css, "").into_owned()
}

/// Relies on `regex::Regex::captures_iter`: the successive non-overlapping
/// matches of the `url(...)` pattern, with the text between them kept.
#[verifier::external_body]
pub(crate) fn split_urls(css: &str) -> (r: Vec<Piece>)
    ensures
        pieces_view(r@) == url_split(css@),
        joined_text(pieces_view(r@)) == css@,
        args_within(pieces_view(r@)),
{
    let re = regex::Regex::new(r#"url\s*?\(["']?([^"')]+?)["']?\)"#).unwrap();
    let mut out: Vec<Piece> = Vec::new();
    let mut last: usize = 0;
    for c in re.captures_iter(css) {
        let m = c.get(0).unwrap();
        out.push(Piece { text: css[last..m.start()].to_string(), arg: None });
        out.push(Piece { text: m.as_str().to_string(), arg: Some(c[1].to_string()) });
        last = m.end();
    }
    out.push(Piece { text: css[last..].to_string(), arg: None });
    out
}

/// Relies on `regex::Regex::captures_iter`: the successive non-overlapping
/// matches of the `@import url(...);` pattern, with the text between them kept.
#[verifier::external_body]
fn split_imports(css: &str) -> (r: Vec<Piece>)
    ensures
        pieces_view(r@) == import_split(css@),
        joined_text(pieces_view(r@)) == css@,
        args_within(pieces_view(r@)),
{
    let re = regex::Regex::new(r#"@import\s+url\(["']?([^"')]+)["']?\)\s*;\s*"#).unwrap();
    let mut out: Vec<Piece> = Vec::new();
    let mut last: usize = 0;
    for c in re.captures_iter(css) {
        let m = c.get(0).unwrap();
        out.push(Piece { text: css[last..m.start()].to_string(), arg: None });
        out.push(Piece { text: m.as_str().to_string(), arg: Some(c[1].to_string()) });
        last = m.end();
    }
    out.push(Piece { text: css[last..].to_string(), arg: None });
    out
}

/// A `url(...)` argument longer than this is taken for data, not a path.
pub const LONGEST_PATH: usize = 1500;

pub open spec fn remote_marker() -> Seq<char> {
    seq![':', '/', '/']
}

pub open spec fn data_marker() -> Seq<char> {
    seq!['d', 'a', 't', 'a', ':']
}

pub open spec fn url_open() -> Seq<char> {
    seq!['u', 'r', 'l', '(']
}

/// A reference is remote when it holds `://`.
pub open spec fn is_remote(reference: Seq<char>) -> bool {
    contains_seq(reference, remote_marker())
}

/// What one piece of a stylesheet at `css_file` becomes once its `url(...)`
/// arguments are made relative to `root`.
pub open spec fn rewritten_piece(
    p: (Seq<char>, Option<Seq<char>>),
    css_file: Seq<char>,
    root: Seq<char>,
) -> Seq<char> {
    match p.1 {
        None => p.0,
        Some(arg) => if arg.len() > LONGEST_PATH || starts_with_seq(arg, data_marker()) {
            p.0
        } else if is_remote(arg) {
            url_open() + arg + seq![')']
        } else {
            url_open() + rebased(css_file, arg, root) + seq![')']
        },
    }
}

/// The pieces with their `url(...)` arguments rewritten, joined.
pub open spec fn rewritten_pieces(
    ps: Seq<(Seq<char>, Option<Seq<char>>)>,
    css_file: Seq<char>,
    root: Seq<char>,
) -> Seq<char>
    decreases ps.len(),
{
    if ps.len() == 0 {
        Seq::empty()
    } else {
        rewritten_pieces(ps.drop_last(), css_file, root) + rewritten_piece(
            ps.last(),
            css_file,
            root,
        )
    }
}

/// The text of the stylesheet at `css_file` with every `url(...)` made
/// relative to `root`.
pub open spec fn urls_rewritten(css: Seq<char>, css_file: Seq<char>, root: Seq<char>) -> Seq<
    char,
> {
    rewritten_pieces(url_split(css), css_file, root)
}

/// Whether `reference` is remote.
pub fn is_remote_exec(reference: &str) -> (r: bool)
    ensures
        r == is_remote(reference@),
{
    let chars = chars_of(reference);
    let marker = vec![':', '/', '/'];
    assert(marker@ =~= remote_marker());
    contains_exec(&chars, &marker)
}

fn rewrite_piece(p: &Piece, css_file: &str, root: &str) -> (r: String)
    ensures
        r@ == rewritten_piece(p@, css_file@, root@),
{
    match &p.arg {
        None => p.text.clone(),
        Some(arg) => {
            let chars = chars_of(arg.as_str());
            let data = vec!['d', 'a', 't', 'a', ':'];
            assert(data@ =~= data_marker());
            if chars.len() > LONGEST_PATH || occurs_at_exec(&chars, &data, 0) {
                return p.text.clone();
            }
            let mut out = String::from_str("url(");
            proof {
                reveal_strlit("url(");
                assert("url("@ =~= url_open());
            }
            if is_remote_exec(arg.as_str()) {
                out.append(arg.as_str());
            } else {
                let moved = rebase(css_file, arg.as_str(), root);
                out.append(moved.as_str());
            }
            out.append(")");
            proof {
                reveal_strlit(")");
                assert(")"@ =~= seq![')']);
            }
            out
        },
    }
}

/// The stylesheet text `css`, read from `css_file`, with every `url(...)`
/// made relative to `root`.
pub fn rewrite_urls(css: &str, css_file: &str, root: &str) -> (r: String)
    ensures
        r@ == urls_rewritten(css@, css_file@, root@),
{
    let pieces = split_urls(css);
    let ghost ps = pieces_view(pieces@);
    let mut out = String::new();
    let mut i: usize = 0;
    while i < pieces.len()
        invariant
            i <= pieces.len(),
            ps == pieces_view(pieces@),
            ps == url_split(css@),
            out@ == rewritten_pieces(ps.subrange(0, i as int), css_file@, root@),
        decreases pieces.len() - i,
    {
        let part = rewrite_piece(&pieces[i], css_file, root);
        out.append(part.as_str());
        assert(ps.subrange(0, i + 1).drop_last() =~= ps.subrange(0, i as int));
        i = i + 1;
    }
    assert(ps.subrange(0, i as int) =~= ps);
    out
}

/// The canonical paths of the stylesheets expanded so far in one inlining call.
pub struct VisitedSet {
    paths: Vec<String>,
}

impl VisitedSet {
    pub closed spec fn view(&self) -> Seq<Seq<char>> {
        self.paths@.map_values(|p: String| p@)
    }

    /// No path is in the set twice.
    pub open spec fn wf(&self) -> bool {
        self@.no_duplicates()
    }

    /// An empty set.
    pub fn new() -> (r: VisitedSet)
        ensures
            r@ == Seq::<Seq<char>>::empty(),
            r.wf(),
    {
        let r = VisitedSet { paths: Vec::new() };
        assert(r@ =~= Seq::<Seq<char>>::empty());
        r
    }

    /// Whether `path` is in the set.
    pub fn contains(&self, path: &String) -> (r: bool)
        ensures
            r == self@.contains(path@),
    {
        let mut i: usize = 0;
        while i < self.paths.len()
            invariant
                i <= self.paths.len(),
                forall|k: int| 0 <= k < i ==> self@[k] != path@,
            decreases self.paths.len() - i,
        {
            if self.paths[i] == *path {
                assert(self@[i as int] == path@);
                return true;
            }
            i = i + 1;
        }
        false
    }

    /// Adds `path`, which is not in the set yet.
    pub fn insert(&mut self, path: String)
        requires
            old(self).wf(),
            !old(self)@.contains(path@),
        ensures
            final(self)@ == old(self)@.push(path@),
            final(self).wf(),
    {
        let ghost before = self@;
        self.paths.push(path);
        assert(self@ =~= before.push(path@));
        assert forall|a: int, b: int|
            0 <= a < self@.len() && 0 <= b < self@.len() && a != b implies self@[a] != self@[b] by {
            if a == before.len() {
                assert(before[b] == self@[b]);
            } else if b == before.len() {
                assert(before[a] == self@[a]);
            } else {
                assert(before[a] == self@[a] && before[b] == self@[b]);
            }
        }
    }
}

/// The message of an `InvalidPath` error for `path`.
pub open spec fn not_found_message(path: Seq<char>) -> Seq<char> {
    "File not found: "@ + path
}

/// The result of an expansion, with the visited set it leaves.
pub open spec fn prepend(
    s: Seq<char>,
    e: (Result<Seq<char>, ErrorView>, Seq<Seq<char>>),
) -> (Result<Seq<char>, ErrorView>, Seq<Seq<char>>) {
    (
        match e.0 {
            Ok(t) => Ok(s + t),
            Err(x) => Err(x),
        },
        e.1,
    )
}

/// Expands the stylesheet asked for as `request`: its comments removed, its
/// `url(...)` arguments made relative to `root`, and each local
/// `@import url(...);` replaced by the expansion of the imported file,
/// resolved against `root`. A stylesheet whose canonical path is in `visited`
/// gives `RepeatedFile`; an import that gives `RepeatedFile` adds nothing.
/// `fuel` bounds the depth of imports.
pub open spec fn expand_css(
    store: Seq<(Seq<char>, OutcomeView)>,
    request: Seq<char>,
    root: Seq<char>,
    visited: Seq<Seq<char>>,
    fuel: nat,
) -> (Result<Seq<char>, ErrorView>, Seq<Seq<char>>)
    decreases fuel, 0int,
{
    match lookup(store, request) {
        None => (Err(ErrorView::Unread(request)), visited),
        Some(OutcomeView::NotFound) => (
            Err(ErrorView::InvalidPath(not_found_message(request))),
            visited,
        ),
        Some(OutcomeView::Failed(cause)) => (
            Err(ErrorView::FileReadError(request, cause)),
            visited,
        ),
        Some(OutcomeView::Unreadable(canonical, cause)) => if visited.contains(canonical)
            || fuel == 0 {
            (Err(ErrorView::RepeatedFile), visited)
        } else {
            (Err(ErrorView::FileReadError(canonical, cause)), visited.push(canonical))
        },
        Some(OutcomeView::Found(canonical, bytes)) => if visited.contains(canonical) || fuel
            == 0 {
            (Err(ErrorView::RepeatedFile), visited)
        } else {
            match utf8_text(bytes) {
                None => (
                    Err(ErrorView::FileReadError(canonical, invalid_utf8_message())),
                    visited.push(canonical),
                ),
                Some(text) => expand_imports(
                    store,
                    import_split(urls_rewritten(comments_removed(text), canonical, root)),
                    0,
                    root,
                    visited.push(canonical),
                    (fuel - 1) as nat,
                ),
            }
        },
    }
}

/// Expands the pieces of an import split from the `i`-th on.
pub open spec fn expand_imports(
    store: Seq<(Seq<char>, OutcomeView)>,
    ps: Seq<(Seq<char>, Option<Seq<char>>)>,
    i: int,
    root: Seq<char>,
    visited: Seq<Seq<char>>,
    fuel: nat,
) -> (Result<Seq<char>, ErrorView>, Seq<Seq<char>>)
    decreases fuel, ps.len() - i,
{
    if i < 0 || i >= ps.len() {
        (Ok(Seq::empty()), visited)
    } else {
        match ps[i].1 {
            Some(arg) if !is_remote(arg) => {
                let sub = expand_css(store, join_path(root, arg), root, visited, fuel);
                match sub.0 {
                    Ok(s) => prepend(s, expand_imports(store, ps, i + 1, root, sub.1, fuel)),
                    Err(e) => if e is RepeatedFile {
                        expand_imports(store, ps, i + 1, root, sub.1, fuel)
                    } else {
                        (Err(e), sub.1)
                    },
                }
            },
            _ => prepend(ps[i].0, expand_imports(store, ps, i + 1, root, visited, fuel)),
        }
    }
}

/// The expansion of `request` in one inlining call, with one level of
/// imports for each record of the store: enough that no fuel could change
/// the result (see `fuel_is_enough`).
pub open spec fn css_expansion(
    store: Seq<(Seq<char>, OutcomeView)>,
    request: Seq<char>,
    root: Seq<char>,
    visited: Seq<Seq<char>>,
) -> (Result<Seq<char>, ErrorView>, Seq<Seq<char>>) {
    expand_css(store, request, root, visited, store.len())
}

pub open spec fn result_view(r: Result<String, FilePathError>) -> Result<Seq<char>, ErrorView> {
    match r {
        Ok(s) => Ok(s@),
        Err(e) => Err(e@),
    }
}

proof fn lemma_prepend_twice(
    a: Seq<char>,
    b: Seq<char>,
    e: (Result<Seq<char>, ErrorView>, Seq<Seq<char>>),
)
    ensures
        prepend(a, prepend(b, e)) == prepend(a + b, e),
{
    match e.0 {
        Ok(t) => {
            assert(a + (b + t) =~= (a + b) + t);
        },
        Err(_) => {},
    }
}

proof fn lemma_prepend_empty(e: (Result<Seq<char>, ErrorView>, Seq<Seq<char>>))
    ensures
        prepend(Seq::empty(), e) == e,
{
    match e.0 {
        Ok(t) => {
            assert(Seq::<char>::empty() + t =~= t);
        },
        Err(_) => {},
    }
}

fn expand(
    store: &FileStore,
    request: &String,
    root: &String,
    visited: &mut VisitedSet,
    fuel: usize,
) -> (r: Result<String, FilePathError>)
    requires
        old(visited).wf(),
    ensures
        final(visited).wf(),
        (result_view(r), final(visited)@) == expand_css(
            store@,
            request@,
            root@,
            old(visited)@,
            fuel as nat,
        ),
    decreases fuel,
{
    match store.get(request) {
        None => Err(FilePathError::Unread(request.clone())),
        Some(ReadOutcome::NotFound) => {
            let mut m = String::from_str("File not found: ");
            m.append(request.as_str());
            Err(FilePathError::InvalidPath(m))
        },
        Some(ReadOutcome::Failed(cause)) => Err(
            FilePathError::FileReadError(request.clone(), cause.clone()),
        ),
        Some(ReadOutcome::Unreadable { canonical, cause }) => {
            if fuel == 0 || visited.contains(canonical) {
                return Err(FilePathError::RepeatedFile);
            }
            visited.insert(canonical.clone());
            Err(FilePathError::FileReadError(canonical.clone(), cause.clone()))
        },
        Some(ReadOutcome::Found { canonical, bytes }) => {
            if fuel == 0 || visited.contains(canonical) {
                return Err(FilePathError::RepeatedFile);
            }
            visited.insert(canonical.clone());
            let text = match text_of(bytes) {
                Ok(t) => t,
                Err(cause) => {
                    return Err(FilePathError::FileReadError(canonical.clone(), cause));
                },
            };
            let stripped = strip_comments(text.as_str());
            let rewritten = rewrite_urls(stripped.as_str(), canonical.as_str(), root.as_str());
            let pieces = split_imports(rewritten.as_str());
            let ghost ps = pieces_view(pieces@);
            let ghost start = visited@;
            let ghost inner = (fuel - 1) as nat;
            let mut out = String::new();
            proof {
                lemma_prepend_empty(expand_imports(store@, ps, 0, root@, start, inner));
            }
            let mut i: usize = 0;
            while i < pieces.len()
                invariant
                    visited.wf(),
                    i <= pieces.len(),
                    fuel > 0,
                    inner == fuel - 1,
                    ps == pieces_view(pieces@),
                    expand_css(store@, request@, root@, old(visited)@, fuel as nat)
                        == expand_imports(store@, ps, 0, root@, start, inner),
                    expand_imports(store@, ps, 0, root@, start, inner) == prepend(
                        out@,
                        expand_imports(store@, ps, i as int, root@, visited@, inner),
                    ),
                decreases pieces.len() - i,
            {
                let piece = &pieces[i];
                let ghost rest = expand_imports(store@, ps, i + 1, root@, visited@, inner);
                match &piece.arg {
                    Some(arg) => {
                        if is_remote_exec(arg.as_str()) {
                            proof {
                                lemma_prepend_twice(out@, piece.text@, rest);
                            }
                            out.append(piece.text.as_str());
                        } else {
                            let target = join(root.as_str(), arg.as_str());
                            match expand(store, &target, root, visited, fuel - 1) {
                                Ok(s) => {
                                    proof {
                                        lemma_prepend_twice(
                                            out@,
                                            s@,
                                            expand_imports(
                                                store@,
                                                ps,
                                                i + 1,
                                                root@,
                                                visited@,
                                                inner,
                                            ),
                                        );
                                    }
                                    out.append(s.as_str());
                                },
                                Err(FilePathError::RepeatedFile) => {},
                                Err(e) => {
                                    return Err(e);
                                },
                            }
                        }
                    },
                    None => {
                        proof {
                            lemma_prepend_twice(out@, piece.text@, rest);
                        }
                        out.append(piece.text.as_str());
                    },
                }
                i = i + 1;
            }
            Ok(out)
        },
    }
}

/// Expands the stylesheet asked for as `css_path` in an inlining call whose
/// root is `root_path` and which has expanded the stylesheets in
/// `path_set` so far; `path_set` then holds every stylesheet expanded.
pub fn inline_css(
    store: &FileStore,
    css_path: &String,
    root_path: &String,
    path_set: &mut VisitedSet,
) -> (r: Result<String, FilePathError>)
    requires
        old(path_set).wf(),
    ensures
        final(path_set).wf(),
        (result_view(r), final(path_set)@) == css_expansion(
            store@,
            css_path@,
            root_path@,
            old(path_set)@,
        ),
{
    expand(store, css_path, root_path, path_set, store.len())
}

/// `a` is an initial part of `b`.
pub open spec fn is_prefix_of(a: Seq<Seq<char>>, b: Seq<Seq<char>>) -> bool {
    a.len() <= b.len() && b.subrange(0, a.len() as int) == a
}

proof fn lemma_prefix_trans(a: Seq<Seq<char>>, b: Seq<Seq<char>>, c: Seq<Seq<char>>)
    requires
        is_prefix_of(a, b),
        is_prefix_of(b, c),
    ensures
        is_prefix_of(a, c),
{
    assert(c.subrange(0, a.len() as int) =~= c.subrange(0, b.len() as int).subrange(
        0,
        a.len() as int,
    ));
}

/// Expanding a stylesheet only adds paths to the end of the visited set.
pub proof fn expansion_extends_visited(
    store: Seq<(Seq<char>, OutcomeView)>,
    request: Seq<char>,
    root: Seq<char>,
    visited: Seq<Seq<char>>,
    fuel: nat,
)
    ensures
        is_prefix_of(visited, expand_css(store, request, root, visited, fuel).1),
    decreases fuel, 0int,
{
    assert(visited.subrange(0, visited.len() as int) =~= visited);
    match lookup(store, request) {
        Some(OutcomeView::Found(canonical, bytes)) => {
            if !(visited.contains(canonical) || fuel == 0) {
                let pushed = visited.push(canonical);
                assert(pushed.subrange(0, visited.len() as int) =~= visited);
                if utf8_text(bytes) is Some {
                    let text = utf8_text(bytes)->0;
                    let ps = import_split(urls_rewritten(comments_removed(text), canonical, root));
                    imports_extend_visited(store, ps, 0, root, pushed, (fuel - 1) as nat);
                    lemma_prefix_trans(
                        visited,
                        pushed,
                        expand_imports(store, ps, 0, root, pushed, (fuel - 1) as nat).1,
                    );
                }
            }
        },
        Some(OutcomeView::Unreadable(canonical, _)) => {
            if !(visited.contains(canonical) || fuel == 0) {
                assert(visited.push(canonical).subrange(0, visited.len() as int) =~= visited);
            }
        },
        _ => {},
    }
}

/// Expanding the pieces of an import split only adds paths to the end of the
/// visited set.
pub proof fn imports_extend_visited(
    store: Seq<(Seq<char>, OutcomeView)>,
    ps: Seq<(Seq<char>, Option<Seq<char>>)>,
    i: int,
    root: Seq<char>,
    visited: Seq<Seq<char>>,
    fuel: nat,
)
    ensures
        is_prefix_of(visited, expand_imports(store, ps, i, root, visited, fuel).1),
    decreases fuel, ps.len() - i,
{
    assert(visited.subrange(0, visited.len() as int) =~= visited);
    if !(i < 0 || i >= ps.len()) {
        match ps[i].1 {
            Some(arg) => {
                if !is_remote(arg) {
                    let sub = expand_css(store, join_path(root, arg), root, visited, fuel);
                    expansion_extends_visited(store, join_path(root, arg), root, visited, fuel);
                    imports_extend_visited(store, ps, i + 1, root, sub.1, fuel);
                    lemma_prefix_trans(
                        visited,
                        sub.1,
                        expand_imports(store, ps, i + 1, root, sub.1, fuel).1,
                    );
                } else {
                    imports_extend_visited(store, ps, i + 1, root, visited, fuel);
                }
            },
            None => {
                imports_extend_visited(store, ps, i + 1, root, visited, fuel);
            },
        }
    }
}

/// A stylesheet whose canonical path was already visited expands to
/// `RepeatedFile` and leaves the visited set as it was: an import cycle ends
/// there.
pub proof fn visited_stylesheet_is_repeated(
    store: Seq<(Seq<char>, OutcomeView)>,
    request: Seq<char>,
    root: Seq<char>,
    visited: Seq<Seq<char>>,
    fuel: nat,
    canonical: Seq<char>,
    bytes: Seq<u8>,
)
    requires
        lookup(store, request) == Some(OutcomeView::Found(canonical, bytes)),
        visited.contains(canonical),
    ensures
        expand_css(store, request, root, visited, fuel) == (
            Err::<Seq<char>, ErrorView>(ErrorView::RepeatedFile),
            visited,
        ),
{
}

/// Once a stylesheet has been expanded, asking for it again in the same call
/// gives `RepeatedFile`, so its content is emitted once.
pub proof fn second_expansion_is_repeated(
    store: Seq<(Seq<char>, OutcomeView)>,
    request: Seq<char>,
    root: Seq<char>,
    visited: Seq<Seq<char>>,
    fuel: nat,
    later: Seq<Seq<char>>,
    fuel2: nat,
)
    requires
        expand_css(store, request, root, visited, fuel).0 is Ok,
        is_prefix_of(expand_css(store, request, root, visited, fuel).1, later),
    ensures
        expand_css(store, request, root, later, fuel2).0 == Err::<Seq<char>, ErrorView>(
            ErrorView::RepeatedFile,
        ),
{
    match lookup(store, request) {
        Some(OutcomeView::Found(canonical, bytes)) => {
            let pushed = visited.push(canonical);
            let first = expand_css(store, request, root, visited, fuel).1;
            if utf8_text(bytes) is Some {
                let text = utf8_text(bytes)->0;
                let ps = import_split(urls_rewritten(comments_removed(text), canonical, root));
                imports_extend_visited(store, ps, 0, root, pushed, (fuel - 1) as nat);
            } else {
                assert(pushed.subrange(0, pushed.len() as int) =~= pushed);
            }
            lemma_prefix_trans(pushed, first, later);
            assert(later.subrange(0, pushed.len() as int)[visited.len() as int] == canonical);
            assert(later[visited.len() as int] == canonical);
            assert(later.contains(canonical));
        },
        _ => {},
    }
}

/// A remote `url(...)` argument comes out of the rewrite unchanged.
pub proof fn remote_url_kept(
    p: (Seq<char>, Option<Seq<char>>),
    css_file: Seq<char>,
    root: Seq<char>,
)
    requires
        p.1 is Some,
        is_remote(p.1->0),
        contains_seq(p.0, p.1->0),
    ensures
        contains_seq(rewritten_piece(p, css_file, root), p.1->0),
{
    let arg = p.1->0;
    let out = rewritten_piece(p, css_file, root);
    if !(arg.len() > LONGEST_PATH || starts_with_seq(arg, data_marker())) {
        assert(out.subrange(4, 4 + arg.len() as int) =~= arg);
        assert(crate::text::occurs_at(out, arg, 4));
    }
}

/// The canonical path of a record, or nothing for a failed read.
pub open spec fn entry_canonical(o: OutcomeView) -> Seq<char> {
    match o {
        OutcomeView::Found(c, _) => c,
        OutcomeView::Unreadable(c, _) => c,
        _ => Seq::empty(),
    }
}

/// The canonical paths that the store's records give, one per record.
pub open spec fn store_canonicals(store: Seq<(Seq<char>, OutcomeView)>) -> Seq<Seq<char>> {
    store.map_values(|e: (Seq<char>, OutcomeView)| entry_canonical(e.1))
}

/// A visited set that an expansion can produce: no path twice, and each one
/// given by a record of the store.
pub open spec fn visited_ok(store: Seq<(Seq<char>, OutcomeView)>, visited: Seq<Seq<char>>) -> bool {
    &&& visited.no_duplicates()
    &&& forall|k: int| 0 <= k < visited.len() ==> store_canonicals(store).contains(#[trigger] visited[k])
}

proof fn lemma_lookup_canonical(
    store: Seq<(Seq<char>, OutcomeView)>,
    path: Seq<char>,
    outcome: OutcomeView,
)
    requires
        lookup(store, path) == Some(outcome),
    ensures
        store_canonicals(store).contains(entry_canonical(outcome)),
    decreases store.len(),
{
    let cs = store_canonicals(store);
    if store.last().0 == path {
        assert(cs[store.len() - 1] == entry_canonical(outcome));
    } else {
        lemma_lookup_canonical(store.drop_last(), path, outcome);
        let k = choose|k: int|
            0 <= k < store_canonicals(store.drop_last()).len() && store_canonicals(
                store.drop_last(),
            )[k] == entry_canonical(outcome);
        assert(cs[k] == entry_canonical(outcome));
    }
}

proof fn lemma_visited_bound(store: Seq<(Seq<char>, OutcomeView)>, visited: Seq<Seq<char>>)
    requires
        visited_ok(store, visited),
    ensures
        visited.len() <= store.len(),
{
    broadcast use vstd::seq_lib::seq_to_set_is_finite;

    let cs = store_canonicals(store);
    visited.unique_seq_to_set();
    cs.lemma_cardinality_of_set();
    assert forall|x: Seq<char>| visited.to_set().contains(x) implies cs.to_set().contains(x) by {
        let k = choose|k: int| 0 <= k < visited.len() && visited[k] == x;
        assert(cs.contains(visited[k]));
    }
    vstd::set_lib::lemma_len_subset(visited.to_set(), cs.to_set());
}

proof fn lemma_push_ok(
    store: Seq<(Seq<char>, OutcomeView)>,
    visited: Seq<Seq<char>>,
    canonical: Seq<char>,
)
    requires
        visited_ok(store, visited),
        !visited.contains(canonical),
        store_canonicals(store).contains(canonical),
    ensures
        visited_ok(store, visited.push(canonical)),
{
    let pushed = visited.push(canonical);
    assert forall|a: int, b: int| 0 <= a < pushed.len() && 0 <= b < pushed.len() && a != b implies pushed[a] != pushed[b] by {
        if a == visited.len() {
            assert(visited[b] == pushed[b]);
        } else if b == visited.len() {
            assert(visited[a] == pushed[a]);
        }
    }
    assert forall|k: int| 0 <= k < pushed.len() implies store_canonicals(store).contains(
        #[trigger] pushed[k],
    ) by {
        if k < visited.len() {
            assert(pushed[k] == visited[k]);
        }
    }
}

/// Expanding with fuel that covers the records not yet visited gives the
/// same result whatever that fuel is, and leaves a visited set of the same
/// kind.
pub proof fn expansion_fuel_irrelevant(
    store: Seq<(Seq<char>, OutcomeView)>,
    request: Seq<char>,
    root: Seq<char>,
    visited: Seq<Seq<char>>,
    fuel1: nat,
    fuel2: nat,
)
    requires
        visited_ok(store, visited),
        fuel1 + visited.len() >= store.len(),
        fuel2 + visited.len() >= store.len(),
    ensures
        expand_css(store, request, root, visited, fuel1) == expand_css(
            store,
            request,
            root,
            visited,
            fuel2,
        ),
        visited_ok(store, expand_css(store, request, root, visited, fuel1).1),
    decreases fuel1, 0int,
{
    match lookup(store, request) {
        Some(OutcomeView::Found(canonical, bytes)) => {
            lemma_lookup_canonical(store, request, OutcomeView::Found(canonical, bytes));
            if !visited.contains(canonical) {
                lemma_push_ok(store, visited, canonical);
                lemma_visited_bound(store, visited.push(canonical));
                assert(fuel1 > 0 && fuel2 > 0);
                if utf8_text(bytes) is Some {
                    let text = utf8_text(bytes)->0;
                    let ps = import_split(urls_rewritten(comments_removed(text), canonical, root));
                    imports_fuel_irrelevant(
                        store,
                        ps,
                        0,
                        root,
                        visited.push(canonical),
                        (fuel1 - 1) as nat,
                        (fuel2 - 1) as nat,
                    );
                }
            }
        },
        Some(OutcomeView::Unreadable(canonical, cause)) => {
            lemma_lookup_canonical(store, request, OutcomeView::Unreadable(canonical, cause));
            if !visited.contains(canonical) {
                lemma_push_ok(store, visited, canonical);
                lemma_visited_bound(store, visited.push(canonical));
                assert(fuel1 > 0 && fuel2 > 0);
            }
        },
        _ => {},
    }
}

/// The counterpart of `expansion_fuel_irrelevant` for the pieces of an
/// import split.
pub proof fn imports_fuel_irrelevant(
    store: Seq<(Seq<char>, OutcomeView)>,
    ps: Seq<(Seq<char>, Option<Seq<char>>)>,
    i: int,
    root: Seq<char>,
    visited: Seq<Seq<char>>,
    fuel1: nat,
    fuel2: nat,
)
    requires
        visited_ok(store, visited),
        fuel1 + visited.len() >= store.len(),
        fuel2 + visited.len() >= store.len(),
    ensures
        expand_imports(store, ps, i, root, visited, fuel1) == expand_imports(
            store,
            ps,
            i,
            root,
            visited,
            fuel2,
        ),
        visited_ok(store, expand_imports(store, ps, i, root, visited, fuel1).1),
    decreases fuel1, ps.len() - i,
{
    if !(i < 0 || i >= ps.len()) {
        match ps[i].1 {
            Some(arg) => {
                if !is_remote(arg) {
                    let target = join_path(root, arg);
                    expansion_fuel_irrelevant(store, target, root, visited, fuel1, fuel2);
                    expansion_extends_visited(store, target, root, visited, fuel1);
                    let sub = expand_css(store, target, root, visited, fuel1);
                    imports_fuel_irrelevant(store, ps, i + 1, root, sub.1, fuel1, fuel2);
                } else {
                    imports_fuel_irrelevant(store, ps, i + 1, root, visited, fuel1, fuel2);
                }
            },
            None => {
                imports_fuel_irrelevant(store, ps, i + 1, root, visited, fuel1, fuel2);
            },
        }
    }
}

/// The fuel of `css_expansion` never cuts an expansion short: any fuel at
/// least as large gives the same result.
pub proof fn fuel_is_enough(
    store: Seq<(Seq<char>, OutcomeView)>,
    request: Seq<char>,
    root: Seq<char>,
    visited: Seq<Seq<char>>,
    fuel: nat,
)
    requires
        visited_ok(store, visited),
        fuel >= store.len(),
    ensures
        expand_css(store, request, root, visited, fuel) == css_expansion(
            store,
            request,
            root,
            visited,
        ),
{
    expansion_fuel_irrelevant(store, request, root, visited, fuel, store.len());
}

/// Expanding the imports of a stylesheet never fails with `RepeatedFile`: an
/// import that repeats adds nothing instead.
pub proof fn imports_never_repeated(
    store: Seq<(Seq<char>, OutcomeView)>,
    ps: Seq<(Seq<char>, Option<Seq<char>>)>,
    i: int,
    root: Seq<char>,
    visited: Seq<Seq<char>>,
    fuel: nat,
)
    ensures
        !(expand_imports(store, ps, i, root, visited, fuel).0 is Err
            && expand_imports(store, ps, i, root, visited, fuel).0->Err_0 is RepeatedFile),
    decreases ps.len() - i,
{
    if !(i < 0 || i >= ps.len()) {
        match ps[i].1 {
            Some(arg) => {
                if !is_remote(arg) {
                    let sub = expand_css(store, join_path(root, arg), root, visited, fuel);
                    imports_never_repeated(store, ps, i + 1, root, sub.1, fuel);
                } else {
                    imports_never_repeated(store, ps, i + 1, root, visited, fuel);
                }
            },
            None => {
                imports_never_repeated(store, ps, i + 1, root, visited, fuel);
            },
        }
    }
}

proof fn lemma_contains_in_concat(a: Seq<char>, b: Seq<char>, x: Seq<char>)
    ensures
        contains_seq(a, x) ==> contains_seq(a + b, x),
        contains_seq(b, x) ==> contains_seq(a + b, x),
{
    if contains_seq(a, x) {
        let i = choose|i: int| crate::text::occurs_at(a, x, i);
        assert((a + b).subrange(i, i + x.len()) =~= a.subrange(i, i + x.len()));
        assert(crate::text::occurs_at(a + b, x, i));
    }
    if contains_seq(b, x) {
        let i = choose|i: int| crate::text::occurs_at(b, x, i);
        assert((a + b).subrange(a.len() + i, a.len() + i + x.len()) =~= b.subrange(i, i + x.len()));
        assert(crate::text::occurs_at(a + b, x, a.len() + i));
    }
}

/// Every remote `url(...)` argument of a stylesheet comes out of the rewrite
/// of the whole stylesheet unchanged.
pub proof fn remote_urls_kept(
    ps: Seq<(Seq<char>, Option<Seq<char>>)>,
    css_file: Seq<char>,
    root: Seq<char>,
    k: int,
)
    requires
        0 <= k < ps.len(),
        ps[k].1 is Some,
        is_remote(ps[k].1->0),
        args_within(ps),
    ensures
        contains_seq(rewritten_pieces(ps, css_file, root), ps[k].1->0),
    decreases ps.len(),
{
    let arg = ps[k].1->0;
    let head = rewritten_pieces(ps.drop_last(), css_file, root);
    let last = rewritten_piece(ps.last(), css_file, root);
    if k == ps.len() - 1 {
        assert(contains_seq(ps[k].0, arg));
        remote_url_kept(ps[k], css_file, root);
        lemma_contains_in_concat(head, last, arg);
    } else {
        let rest = ps.drop_last();
        assert forall|j: int| 0 <= j < rest.len() && rest[j].1 is Some implies contains_seq(
            #[trigger] rest[j].0,
            rest[j].1->0,
        ) by {
            assert(rest[j] == ps[j]);
        }
        assert(rest[k] == ps[k]);
        remote_urls_kept(rest, css_file, root, k);
        lemma_contains_in_concat(head, last, arg);
    }
}

/// A remote `@import` statement comes out of a successful expansion as it
/// was: it is never resolved or read.
pub proof fn remote_imports_kept(
    store: Seq<(Seq<char>, OutcomeView)>,
    ps: Seq<(Seq<char>, Option<Seq<char>>)>,
    i: int,
    root: Seq<char>,
    visited: Seq<Seq<char>>,
    fuel: nat,
    k: int,
)
    requires
        0 <= i <= k < ps.len(),
        ps[k].1 is Some,
        is_remote(ps[k].1->0),
        expand_imports(store, ps, i, root, visited, fuel).0 is Ok,
    ensures
        contains_seq(expand_imports(store, ps, i, root, visited, fuel).0->Ok_0, ps[k].0),
    decreases ps.len() - i,
{
    let out = expand_imports(store, ps, i, root, visited, fuel).0->Ok_0;
    if i == k {
        let rest = expand_imports(store, ps, i + 1, root, visited, fuel).0->Ok_0;
        assert(out == ps[k].0 + rest);
        assert(out.subrange(0, ps[k].0.len() as int) =~= ps[k].0);
        assert(crate::text::occurs_at(out, ps[k].0, 0));
    } else {
        match ps[i].1 {
            Some(arg) => {
                if !is_remote(arg) {
                    let sub = expand_css(store, join_path(root, arg), root, visited, fuel);
                    remote_imports_kept(store, ps, i + 1, root, sub.1, fuel, k);
                    let rest = expand_imports(store, ps, i + 1, root, sub.1, fuel).0->Ok_0;
                    if sub.0 is Ok {
                        lemma_contains_in_concat(sub.0->Ok_0, rest, ps[k].0);
                    }
                } else {
                    remote_imports_kept(store, ps, i + 1, root, visited, fuel, k);
                    let rest = expand_imports(store, ps, i + 1, root, visited, fuel).0->Ok_0;
                    lemma_contains_in_concat(ps[i].0, rest, ps[k].0);
                }
            },
            None => {
                remote_imports_kept(store, ps, i + 1, root, visited, fuel, k);
                let rest = expand_imports(store, ps, i + 1, root, visited, fuel).0->Ok_0;
                lemma_contains_in_concat(ps[i].0, rest, ps[k].0);
            },
        }
    }
}

} // verus!
