use vstd::prelude::*;
use base64::Engine;
use crate::css::{
    args_within, data_marker, is_remote, is_remote_exec, joined_text, not_found_message,
    pieces_view, result_view, split_urls, url_split, Piece, LONGEST_PATH,
};
use crate::error::{ErrorView, FilePathError};
use crate::paths::{join, join_path};
use crate::store::{lookup, FileStore, OutcomeView, ReadOutcome};
use crate::text::{chars_of, occurs_at, occurs_at_exec, starts_with_seq};

verus! {

/// `css` cut at each `@font-face { ... }` block, each block carrying itself.
pub uninterp spec fn font_face_split(css: Seq<char>) -> Seq<(Seq<char>, Option<Seq<char>>)>;

/// An `@font-face` block cut at each `src:` declaration, each declaration
/// carrying itself.
pub uninterp spec fn src_split(block: Seq<char>) -> Seq<(Seq<char>, Option<Seq<char>>)>;

/// Relies on `regex::Regex::captures_iter`: the successive non-overlapping
/// matches of the `src: ...` declaration pattern, with the text between them
/// kept.
#[verifier::external_body]
fn split_src_declarations(block: &str) -> (r: Vec<Piece>)
    ensures
        pieces_view(r@) == src_split(block@),
        joined_text(pieces_view(r@)) == block@,
        args_within(pieces_view(r@)),
{
    let re = regex::Regex::new(r#"(src\s*:[^;}]*)"#).unwrap();
    let mut out: Vec<Piece> = Vec::new();
    let mut last: usize = 0;
    for c in re.captures_iter(block) {
        let m = c.get(0).unwrap();
        out.push(Piece { text: block[last..m.start()].to_string(), arg: None });
        out.push(Piece { text: m.as_str().to_string(), arg: Some(c[1].to_string()) });
        last = m.end();
    }
    out.push(Piece { text: block[last..].to_string(), arg: None });
    out
}

/// The standard base64 encoding of `bytes`, with padding.
pub uninterp spec fn base64_of(bytes: Seq<u8>) -> Seq<char>;

/// Relies on `regex::Regex::captures_iter`: the successive non-overlapping
/// matches of the `@font-face { ... }` pattern, with the text between them kept.
#[verifier::external_body]
fn split_font_faces(css: &str) -> (r: Vec<Piece>)
    ensures
        pieces_view(r@) == font_face_split(css@),
        joined_text(pieces_view(r@)) == css@,
        args_within(pieces_view(r@)),
{
    let re = regex::Regex::new(r#"(@font-face\s*\{[^}]*\})"#).unwrap();
    let mut out: Vec<Piece> = Vec::new();
    let mut last: usize = 0;
    for c in re.captures_iter(css) {
        let m = c.get(0).unwrap();
        out.push(Piece { text: css[last..m.start()].to_string(), arg: None });
        out.push(Piece { text: m.as_str().to_string(), arg: Some(c[1].to_string()) });
        last = m.end();
    }
    out.push(Piece { text: css[last..].to_string(), arg: None });
    out
}

/// Relies on `base64::engine::general_purpose::STANDARD`'s `encode`: the
/// padded standard encoding, which depends on the bytes alone.
#[verifier::external_body]
fn encode_base64(bytes: &Vec<u8>) -> (r: String)
    ensures
        r@ == base64_of(bytes@),
{
    base64::engine::general_purpose::STANDARD.encode(bytes)
}

/// `s` ends with `suffix`.
pub open spec fn ends_with_seq(s: Seq<char>, suffix: Seq<char>) -> bool {
    occurs_at(s, suffix, s.len() - suffix.len())
}

/// The MIME type of a font, by the extension of its path.
pub open spec fn font_mime(path: Seq<char>) -> Seq<char> {
    if ends_with_seq(path, ".woff"@) {
        "application/font-woff"@
    } else if ends_with_seq(path, ".woff2"@) {
        "application/font-woff2"@
    } else if ends_with_seq(path, ".otf"@) {
        "font/opentype"@
    } else {
        "application/font-ttf"@
    }
}

/// The `url(...)` that embeds the font at `path`, of content `bytes`.
pub open spec fn font_data_url(path: Seq<char>, bytes: Seq<u8>) -> Seq<char> {
    "url(data:"@ + font_mime(path) + ";charset=utf-8;base64,"@ + base64_of(bytes) + ")"@
}

/// What a `url(...)` match `whole` of argument `arg` inside an `@font-face`
/// block becomes: a local font, resolved against `root`, is embedded;
/// remote references, data and over-long arguments stay.
pub open spec fn embedded_url(
    arg: Seq<char>,
    whole: Seq<char>,
    store: Seq<(Seq<char>, OutcomeView)>,
    root: Seq<char>,
) -> Result<Seq<char>, ErrorView> {
    if arg.len() > LONGEST_PATH || starts_with_seq(arg, data_marker()) || is_remote(arg) {
        Ok(whole)
    } else {
        let path = join_path(root, arg);
        match lookup(store, path) {
            None => Err(ErrorView::Unread(path)),
            Some(OutcomeView::NotFound) => Err(ErrorView::InvalidPath(not_found_message(path))),
            Some(OutcomeView::Failed(cause)) => Err(ErrorView::FileReadError(path, cause)),
            Some(OutcomeView::Unreadable(_, cause)) => Err(ErrorView::FileReadError(path, cause)),
            Some(OutcomeView::Found(_, bytes)) => Ok(font_data_url(arg, bytes)),
        }
    }
}

/// `s` put before the text of `r`; an error stays as it is.
pub open spec fn prefixed(s: Seq<char>, r: Result<Seq<char>, ErrorView>) -> Result<
    Seq<char>,
    ErrorView,
> {
    match r {
        Ok(t) => Ok(s + t),
        Err(e) => Err(e),
    }
}

/// The `url(...)` pieces of one `src:` declaration from the `i`-th on, with
/// their fonts embedded.
pub open spec fn embed_in_decl(
    ps: Seq<(Seq<char>, Option<Seq<char>>)>,
    i: int,
    store: Seq<(Seq<char>, OutcomeView)>,
    root: Seq<char>,
) -> Result<Seq<char>, ErrorView>
    decreases ps.len() - i,
{
    if i < 0 || i >= ps.len() {
        Ok(Seq::empty())
    } else {
        let head = match ps[i].1 {
            None => Ok(ps[i].0),
            Some(arg) => embedded_url(arg, ps[i].0, store, root),
        };
        match head {
            Ok(h) => prefixed(h, embed_in_decl(ps, i + 1, store, root)),
            Err(e) => Err(e),
        }
    }
}

/// The pieces of one `@font-face` block cut at its `src:` declarations, from
/// the `i`-th on, with the fonts of each declaration embedded.
pub open spec fn embed_in_block(
    ps: Seq<(Seq<char>, Option<Seq<char>>)>,
    i: int,
    store: Seq<(Seq<char>, OutcomeView)>,
    root: Seq<char>,
) -> Result<Seq<char>, ErrorView>
    decreases ps.len() - i,
{
    if i < 0 || i >= ps.len() {
        Ok(Seq::empty())
    } else {
        let head = match ps[i].1 {
            None => Ok(ps[i].0),
            Some(_) => embed_in_decl(url_split(ps[i].0), 0, store, root),
        };
        match head {
            Ok(h) => prefixed(h, embed_in_block(ps, i + 1, store, root)),
            Err(e) => Err(e),
        }
    }
}

/// The pieces of a stylesheet cut at its `@font-face` blocks, from the
/// `i`-th on, with the fonts of each block embedded.
pub open spec fn embed_in_faces(
    ps: Seq<(Seq<char>, Option<Seq<char>>)>,
    i: int,
    store: Seq<(Seq<char>, OutcomeView)>,
    root: Seq<char>,
) -> Result<Seq<char>, ErrorView>
    decreases ps.len() - i,
{
    if i < 0 || i >= ps.len() {
        Ok(Seq::empty())
    } else {
        let head = match ps[i].1 {
            None => Ok(ps[i].0),
            Some(_) => embed_in_block(src_split(ps[i].0), 0, store, root),
        };
        match head {
            Ok(h) => prefixed(h, embed_in_faces(ps, i + 1, store, root)),
            Err(e) => Err(e),
        }
    }
}

/// The stylesheet `css` with the fonts of its `@font-face` blocks embedded.
pub open spec fn fonts_embedded(
    css: Seq<char>,
    store: Seq<(Seq<char>, OutcomeView)>,
    root: Seq<char>,
) -> Result<Seq<char>, ErrorView> {
    embed_in_faces(font_face_split(css), 0, store, root)
}

proof fn lemma_prefixed_twice(a: Seq<char>, b: Seq<char>, r: Result<Seq<char>, ErrorView>)
    ensures
        prefixed(a, prefixed(b, r)) == prefixed(a + b, r),
{
    match r {
        Ok(t) => {
            assert(a + (b + t) =~= (a + b) + t);
        },
        Err(_) => {},
    }
}

proof fn lemma_prefixed_empty(r: Result<Seq<char>, ErrorView>)
    ensures
        prefixed(Seq::empty(), r) == r,
{
    match r {
        Ok(t) => {
            assert(Seq::<char>::empty() + t =~= t);
        },
        Err(_) => {},
    }
}

fn ends_with(s: &Vec<char>, suffix: &str) -> (r: bool)
    ensures
        r == ends_with_seq(s@, suffix@),
{
    let suf = chars_of(suffix);
    if suf.len() > s.len() {
        return false;
    }
    occurs_at_exec(s, &suf, s.len() - suf.len())
}

/// The MIME type of a font, by the extension of its path.
pub fn mime_of(path: &str) -> (r: String)
    ensures
        r@ == font_mime(path@),
{
    let chars = chars_of(path);
    if ends_with(&chars, ".woff") {
        String::from_str("application/font-woff")
    } else if ends_with(&chars, ".woff2") {
        String::from_str("application/font-woff2")
    } else if ends_with(&chars, ".otf") {
        String::from_str("font/opentype")
    } else {
        String::from_str("application/font-ttf")
    }
}

fn embed_url(arg: &String, whole: &String, store: &FileStore, root: &String) -> (r: Result<
    String,
    FilePathError,
>)
    ensures
        result_view(r) == embedded_url(arg@, whole@, store@, root@),
{
    let chars = chars_of(arg.as_str());
    let data = vec!['d', 'a', 't', 'a', ':'];
    assert(data@ =~= data_marker());
    if chars.len() > LONGEST_PATH || occurs_at_exec(&chars, &data, 0) || is_remote_exec(
        arg.as_str(),
    ) {
        return Ok(whole.clone());
    }
    let path = join(root.as_str(), arg.as_str());
    match store.get(&path) {
        None => Err(FilePathError::Unread(path)),
        Some(ReadOutcome::NotFound) => {
            let mut m = String::from_str("File not found: ");
            m.append(path.as_str());
            Err(FilePathError::InvalidPath(m))
        },
        Some(ReadOutcome::Failed(cause)) => Err(FilePathError::FileReadError(path, cause.clone())),
        Some(ReadOutcome::Unreadable { canonical: _, cause }) => Err(
            FilePathError::FileReadError(path, cause.clone()),
        ),
        Some(ReadOutcome::Found { canonical: _, bytes }) => {
            let mut out = String::from_str("url(data:");
            let mime = mime_of(arg.as_str());
            out.append(mime.as_str());
            out.append(";charset=utf-8;base64,");
            let encoded = encode_base64(bytes);
            out.append(encoded.as_str());
            out.append(")");
            Ok(out)
        },
    }
}

fn embed_decl(decl: &str, store: &FileStore, root: &String) -> (r: Result<String, FilePathError>)
    ensures
        result_view(r) == embed_in_decl(url_split(decl@), 0, store@, root@),
{
    let pieces = split_urls(decl);
    let ghost ps = pieces_view(pieces@);
    let mut out = String::new();
    proof {
        lemma_prefixed_empty(embed_in_decl(ps, 0, store@, root@));
    }
    let mut i: usize = 0;
    while i < pieces.len()
        invariant
            i <= pieces.len(),
            ps == pieces_view(pieces@),
            ps == url_split(decl@),
            embed_in_decl(ps, 0, store@, root@) == prefixed(
                out@,
                embed_in_decl(ps, i as int, store@, root@),
            ),
        decreases pieces.len() - i,
    {
        let piece = &pieces[i];
        let ghost rest = embed_in_decl(ps, i + 1, store@, root@);
        let head = match &piece.arg {
            None => piece.text.clone(),
            Some(arg) => match embed_url(arg, &piece.text, store, root) {
                Ok(h) => h,
                Err(e) => {
                    return Err(e);
                },
            },
        };
        proof {
            lemma_prefixed_twice(out@, head@, rest);
        }
        out.append(head.as_str());
        i = i + 1;
    }
    Ok(out)
}

fn embed_block(block: &str, store: &FileStore, root: &String) -> (r: Result<String, FilePathError>)
    ensures
        result_view(r) == embed_in_block(src_split(block@), 0, store@, root@),
{
    let pieces = split_src_declarations(block);
    let ghost ps = pieces_view(pieces@);
    let mut out = String::new();
    proof {
        lemma_prefixed_empty(embed_in_block(ps, 0, store@, root@));
    }
    let mut i: usize = 0;
    while i < pieces.len()
        invariant
            i <= pieces.len(),
            ps == pieces_view(pieces@),
            ps == src_split(block@),
            embed_in_block(ps, 0, store@, root@) == prefixed(
                out@,
                embed_in_block(ps, i as int, store@, root@),
            ),
        decreases pieces.len() - i,
    {
        let piece = &pieces[i];
        let ghost rest = embed_in_block(ps, i + 1, store@, root@);
        let head = match &piece.arg {
            None => piece.text.clone(),
            Some(_) => match embed_decl(piece.text.as_str(), store, root) {
                Ok(h) => h,
                Err(e) => {
                    return Err(e);
                },
            },
        };
        proof {
            lemma_prefixed_twice(out@, head@, rest);
        }
        out.append(head.as_str());
        i = i + 1;
    }
    Ok(out)
}

/// The stylesheet `css` with the fonts of its `@font-face` blocks embedded,
/// each local `url(...)` of a block's `src:` declarations resolved against `root_path` and read
/// from `store`.
pub fn embed_fonts(css: &str, store: &FileStore, root_path: &String) -> (r: Result<
    String,
    FilePathError,
>)
    ensures
        result_view(r) == fonts_embedded(css@, store@, root_path@),
{
    let pieces = split_font_faces(css);
    let ghost ps = pieces_view(pieces@);
    let mut out = String::new();
    proof {
        lemma_prefixed_empty(embed_in_faces(ps, 0, store@, root_path@));
    }
    let mut i: usize = 0;
    while i < pieces.len()
        invariant
            i <= pieces.len(),
            ps == pieces_view(pieces@),
            ps == font_face_split(css@),
            embed_in_faces(ps, 0, store@, root_path@) == prefixed(
                out@,
                embed_in_faces(ps, i as int, store@, root_path@),
            ),
        decreases pieces.len() - i,
    {
        let piece = &pieces[i];
        let ghost rest = embed_in_faces(ps, i + 1, store@, root_path@);
        let head = match &piece.arg {
            None => piece.text.clone(),
            Some(_) => match embed_block(piece.text.as_str(), store, root_path) {
                Ok(h) => h,
                Err(e) => {
                    return Err(e);
                },
            },
        };
        proof {
            lemma_prefixed_twice(out@, head@, rest);
        }
        out.append(head.as_str());
        i = i + 1;
    }
    Ok(out)
}

/// Whether `r` is the `RepeatedFile` error.
pub open spec fn is_repeat(r: Result<Seq<char>, ErrorView>) -> bool {
    r is Err && r->Err_0 is RepeatedFile
}

proof fn decl_never_repeated(
    ps: Seq<(Seq<char>, Option<Seq<char>>)>,
    i: int,
    store: Seq<(Seq<char>, OutcomeView)>,
    root: Seq<char>,
)
    ensures
        !is_repeat(embed_in_decl(ps, i, store, root)),
    decreases ps.len() - i,
{
    if !(i < 0 || i >= ps.len()) {
        decl_never_repeated(ps, i + 1, store, root);
    }
}

proof fn block_never_repeated(
    ps: Seq<(Seq<char>, Option<Seq<char>>)>,
    i: int,
    store: Seq<(Seq<char>, OutcomeView)>,
    root: Seq<char>,
)
    ensures
        !is_repeat(embed_in_block(ps, i, store, root)),
    decreases ps.len() - i,
{
    if !(i < 0 || i >= ps.len()) {
        block_never_repeated(ps, i + 1, store, root);
        if ps[i].1 is Some {
            decl_never_repeated(url_split(ps[i].0), 0, store, root);
        }
    }
}

proof fn faces_never_repeated(
    ps: Seq<(Seq<char>, Option<Seq<char>>)>,
    i: int,
    store: Seq<(Seq<char>, OutcomeView)>,
    root: Seq<char>,
)
    ensures
        !is_repeat(embed_in_faces(ps, i, store, root)),
    decreases ps.len() - i,
{
    if !(i < 0 || i >= ps.len()) {
        faces_never_repeated(ps, i + 1, store, root);
        if ps[i].1 is Some {
            block_never_repeated(src_split(ps[i].0), 0, store, root);
        }
    }
}

/// Embedding fonts never fails with `RepeatedFile`.
pub proof fn fonts_never_repeated(
    css: Seq<char>,
    store: Seq<(Seq<char>, OutcomeView)>,
    root: Seq<char>,
)
    ensures
        !is_repeat(fonts_embedded(css, store, root)),
{
    faces_never_repeated(font_face_split(css), 0, store, root);
}

} // verus!
