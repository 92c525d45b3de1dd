use vstd::prelude::*;
use crate::document::{elements_of, inlined_text, Document};
use crate::css::{comments_removed, css_expansion, imports_extend_visited, import_split, urls_rewritten, visited_stylesheet_is_repeated, inline_css, is_remote, is_remote_exec, not_found_message, VisitedSet};
use crate::error::{Config, ErrorView, FilePathError};
use crate::fonts::{embed_fonts, fonts_embedded, fonts_never_repeated};
use crate::output::{finish_output, finished};
use crate::paths::{join, join_path};
use crate::store::{invalid_utf8_message, lookup, text_of, utf8_text, FileStore, OutcomeView, ReadOutcome};

verus! {

/// What the inliner reads of a `<script>` or `<link>` element.
#[derive(Debug)]
pub struct ElementInfo {
    /// The element's local name.
    pub tag: String,
    /// The `rel` attribute, if any.
    pub rel: Option<String>,
    /// The `href` attribute, if any.
    pub href: Option<String>,
    /// The `src` attribute, if any.
    pub src: Option<String>,
}

/// The mathematical value of an [`ElementInfo`].
pub struct ElementView {
    pub tag: Seq<char>,
    pub rel: Option<Seq<char>>,
    pub href: Option<Seq<char>>,
    pub src: Option<Seq<char>>,
}

pub open spec fn opt_view(o: Option<String>) -> Option<Seq<char>> {
    match o {
        Some(s) => Some(s@),
        None => None,
    }
}

impl ElementInfo {
    pub open spec fn view(&self) -> ElementView {
        ElementView {
            tag: self.tag@,
            rel: opt_view(self.rel),
            href: opt_view(self.href),
            src: opt_view(self.src),
        }
    }
}

/// What becomes of one element.
#[derive(Debug)]
pub enum Action {
    /// The element stays as it is.
    Keep,
    /// The script's `src` goes and the text becomes its content.
    InlineScript(String),
    /// The link is replaced by a `<style>` element holding the text.
    InlineStyle(String),
    /// The link goes: its stylesheet was inlined before.
    Drop,
}

/// The mathematical value of an [`Action`].
pub enum ActionView {
    Keep,
    InlineScript(Seq<char>),
    InlineStyle(Seq<char>),
    Drop,
}

impl Action {
    pub open spec fn view(&self) -> ActionView {
        match self {
            Action::Keep => ActionView::Keep,
            Action::InlineScript(t) => ActionView::InlineScript(t@),
            Action::InlineStyle(t) => ActionView::InlineStyle(t@),
            Action::Drop => ActionView::Drop,
        }
    }
}

pub open spec fn elements_view(es: Seq<ElementInfo>) -> Seq<ElementView> {
    es.map_values(|e: ElementInfo| e@)
}

pub open spec fn actions_view(acts: Seq<Action>) -> Seq<ActionView> {
    acts.map_values(|a: Action| a@)
}

/// A local stylesheet link: its reference, resolved against `root`.
pub open spec fn stylesheet_target(e: ElementView, root: Seq<char>) -> Option<Seq<char>> {
    if e.tag == "link"@ && e.rel == Some("stylesheet"@) && e.href is Some && !is_remote(
        e.href->0,
    ) {
        Some(join_path(root, e.href->0))
    } else {
        None
    }
}

/// A local script: its source, resolved against `root`.
pub open spec fn script_target(e: ElementView, root: Seq<char>) -> Option<Seq<char>> {
    if e.tag == "script"@ && e.src is Some && !is_remote(e.src->0) {
        Some(join_path(root, e.src->0))
    } else {
        None
    }
}

/// What becomes of one element, and the visited set after it.
pub open spec fn element_step(
    e: ElementView,
    store: Seq<(Seq<char>, OutcomeView)>,
    root: Seq<char>,
    visited: Seq<Seq<char>>,
    fonts: bool,
) -> (Result<ActionView, ErrorView>, Seq<Seq<char>>) {
    match script_target(e, root) {
        Some(path) => (
            match lookup(store, path) {
                None => Err(ErrorView::Unread(path)),
                Some(OutcomeView::NotFound) => Err(ErrorView::InvalidPath(not_found_message(path))),
                Some(OutcomeView::Failed(cause)) => Err(ErrorView::FileReadError(path, cause)),
                Some(OutcomeView::Unreadable(_, cause)) => Err(ErrorView::FileReadError(path, cause)),
                Some(OutcomeView::Found(_, bytes)) => match utf8_text(bytes) {
                    Some(text) => Ok(ActionView::InlineScript(text)),
                    None => Err(ErrorView::FileReadError(path, invalid_utf8_message())),
                },
            },
            visited,
        ),
        None => match stylesheet_target(e, root) {
            Some(path) => {
                let x = css_expansion(store, path, root, visited);
                (
                    match x.0 {
                        Ok(css) => if fonts {
                            match fonts_embedded(css, store, root) {
                                Ok(embedded) => Ok(ActionView::InlineStyle(embedded)),
                                Err(err) => Err(err),
                            }
                        } else {
                            Ok(ActionView::InlineStyle(css))
                        },
                        Err(ErrorView::RepeatedFile) => Ok(ActionView::Drop),
                        Err(err) => Err(err),
                    },
                    x.1,
                )
            },
            None => (Ok(ActionView::Keep), visited),
        },
    }
}

pub open spec fn glue(
    prefix: Seq<ActionView>,
    r: Result<Seq<ActionView>, ErrorView>,
) -> Result<Seq<ActionView>, ErrorView> {
    match r {
        Ok(rest) => Ok(prefix + rest),
        Err(e) => Err(e),
    }
}

/// What becomes of the elements from the `i`-th on, in document order, the
/// stylesheets expanded so far being `visited`.
pub open spec fn plan_from(
    els: Seq<ElementView>,
    i: int,
    store: Seq<(Seq<char>, OutcomeView)>,
    root: Seq<char>,
    visited: Seq<Seq<char>>,
    fonts: bool,
) -> Result<Seq<ActionView>, ErrorView>
    decreases els.len() - i,
{
    if i < 0 || i >= els.len() {
        Ok(Seq::empty())
    } else {
        let (step, after) = element_step(els[i], store, root, visited, fonts);
        match step {
            Ok(a) => glue(seq![a], plan_from(els, i + 1, store, root, after, fonts)),
            Err(e) => Err(e),
        }
    }
}

/// What becomes of each element of a document, in one inlining call; with
/// `fonts`, each inlined stylesheet has its fonts embedded.
pub open spec fn element_plan(
    els: Seq<ElementView>,
    store: Seq<(Seq<char>, OutcomeView)>,
    root: Seq<char>,
    fonts: bool,
) -> Result<Seq<ActionView>, ErrorView> {
    plan_from(els, 0, store, root, Seq::empty(), fonts)
}

proof fn lemma_glue_twice(
    a: Seq<ActionView>,
    b: Seq<ActionView>,
    r: Result<Seq<ActionView>, ErrorView>,
)
    ensures
        glue(a, glue(b, r)) == glue(a + b, r),
{
    match r {
        Ok(t) => {
            assert(a + (b + t) =~= (a + b) + t);
        },
        Err(_) => {},
    }
}

fn same_text(s: &String, lit: &str) -> (r: bool)
    ensures
        r == (s@ == lit@),
{
    let l = String::from_str(lit);
    *s == l
}

fn stylesheet_path(e: &ElementInfo, root: &String) -> (r: Option<String>)
    ensures
        opt_view(r) == stylesheet_target(e@, root@),
{
    if !same_text(&e.tag, "link") {
        return None;
    }
    match &e.rel {
        Some(rel) => {
            if !same_text(rel, "stylesheet") {
                return None;
            }
        },
        None => {
            return None;
        },
    }
    match &e.href {
        Some(href) => {
            if is_remote_exec(href.as_str()) {
                None
            } else {
                Some(join(root.as_str(), href.as_str()))
            }
        },
        None => None,
    }
}

fn script_path(e: &ElementInfo, root: &String) -> (r: Option<String>)
    ensures
        opt_view(r) == script_target(e@, root@),
{
    if !same_text(&e.tag, "script") {
        return None;
    }
    match &e.src {
        Some(src) => {
            if is_remote_exec(src.as_str()) {
                None
            } else {
                Some(join(root.as_str(), src.as_str()))
            }
        },
        None => None,
    }
}

fn step(
    e: &ElementInfo,
    store: &FileStore,
    root: &String,
    visited: &mut VisitedSet,
    fonts: bool,
) -> (r: Result<Action, FilePathError>)
    requires
        old(visited).wf(),
    ensures
        final(visited).wf(),
        (
            match r {
                Ok(a) => Ok(a@),
                Err(x) => Err(x@),
            },
            final(visited)@,
        ) == element_step(e@, store@, root@, old(visited)@, fonts),
{
    match script_path(e, root) {
        Some(path) => match store.get(&path) {
            None => Err(FilePathError::Unread(path)),
            Some(ReadOutcome::NotFound) => {
                let mut m = String::from_str("File not found: ");
                m.append(path.as_str());
                Err(FilePathError::InvalidPath(m))
            },
            Some(ReadOutcome::Failed(cause)) => Err(
                FilePathError::FileReadError(path, cause.clone()),
            ),
            Some(ReadOutcome::Unreadable { canonical: _, cause }) => Err(
                FilePathError::FileReadError(path, cause.clone()),
            ),
            Some(ReadOutcome::Found { canonical: _, bytes }) => match text_of(bytes) {
                Ok(text) => Ok(Action::InlineScript(text)),
                Err(cause) => Err(FilePathError::FileReadError(path, cause)),
            },
        },
        None => match stylesheet_path(e, root) {
            Some(path) => match inline_css(store, &path, root, visited) {
                Ok(css) => if fonts {
                    match embed_fonts(css.as_str(), store, root) {
                        Ok(embedded) => Ok(Action::InlineStyle(embedded)),
                        Err(err) => Err(err),
                    }
                } else {
                    Ok(Action::InlineStyle(css))
                },
                Err(FilePathError::RepeatedFile) => Ok(Action::Drop),
                Err(err) => Err(err),
            },
            None => Ok(Action::Keep),
        },
    }
}

/// Decides, in document order, what becomes of each `<script>` and `<link>`
/// element described by `elements`, reading files from `store` and resolving
/// references against `root_path`, embedding fonts when `config` asks.
pub fn plan_elements(
    elements: &Vec<ElementInfo>,
    store: &FileStore,
    root_path: &String,
    config: Config,
) -> (r: Result<Vec<Action>, FilePathError>)
    ensures
        match r {
            Ok(acts) => element_plan(elements_view(elements@), store@, root_path@, config.inline_fonts) == Ok::<
                Seq<ActionView>,
                ErrorView,
            >(actions_view(acts@)),
            Err(e) => element_plan(elements_view(elements@), store@, root_path@, config.inline_fonts) == Err::<
                Seq<ActionView>,
                ErrorView,
            >(e@),
        },
{
    let ghost els = elements_view(elements@);
    let mut visited = VisitedSet::new();
    let mut acts: Vec<Action> = Vec::new();
    let mut i: usize = 0;
    proof {
        assert(actions_view(acts@) =~= Seq::<ActionView>::empty());
        match plan_from(els, 0, store@, root_path@, visited@, config.inline_fonts) {
            Ok(t) => {
                assert(Seq::<ActionView>::empty() + t =~= t);
            },
            Err(_) => {},
        }
    }
    while i < elements.len()
        invariant
            i <= elements.len(),
            visited.wf(),
            els == elements_view(elements@),
            element_plan(els, store@, root_path@, config.inline_fonts) == glue(
                actions_view(acts@),
                plan_from(els, i as int, store@, root_path@, visited@, config.inline_fonts),
            ),
        decreases elements.len() - i,
    {
        let ghost before = visited@;
        match step(&elements[i], store, root_path, &mut visited, config.inline_fonts) {
            Ok(a) => {
                proof {
                    lemma_glue_twice(
                        actions_view(acts@),
                        seq![a@],
                        plan_from(els, i + 1, store@, root_path@, visited@, config.inline_fonts),
                    );
                }
                let ghost prev = acts@;
                let ghost av = a@;
                acts.push(a);
                assert(actions_view(acts@) =~= actions_view(prev) + seq![av]);
            },
            Err(e) => {
                return Err(e);
            },
        }
        i = i + 1;
    }
    proof {
        assert(actions_view(acts@) + Seq::<ActionView>::empty() =~= actions_view(acts@));
    }
    Ok(acts)
}

/// The changes that a plan makes: each action but `Keep`, with the position
/// of its element.
pub open spec fn changes_of(acts: Seq<ActionView>) -> Seq<(int, ActionView)>
    decreases acts.len(),
{
    if acts.len() == 0 {
        Seq::empty()
    } else if acts.last() is Keep {
        changes_of(acts.drop_last())
    } else {
        changes_of(acts.drop_last()).push(((acts.len() - 1) as int, acts.last()))
    }
}

fn apply(doc: &mut Document, i: usize, action: &Action)
    requires
        i < old(doc).len(),
    ensures
        final(doc).changes() == if action@ is Keep {
            old(doc).changes()
        } else {
            old(doc).changes().push((i as int, action@))
        },
        final(doc).source() == old(doc).source(),
        final(doc).len() == old(doc).len(),
{
    match action {
        Action::Keep => {},
        Action::InlineScript(text) => doc.inline_script_at(i, text.as_str()),
        Action::InlineStyle(css) => doc.inline_style_at(i, css.as_str()),
        Action::Drop => doc.drop_at(i),
    }
}

/// A plan that succeeds has one action for each element.
pub proof fn plan_covers_elements(
    els: Seq<ElementView>,
    i: int,
    store: Seq<(Seq<char>, OutcomeView)>,
    root: Seq<char>,
    visited: Seq<Seq<char>>,
    fonts: bool,
)
    requires
        0 <= i <= els.len(),
        plan_from(els, i, store, root, visited, fonts) is Ok,
    ensures
        plan_from(els, i, store, root, visited, fonts)->Ok_0.len() == els.len() - i,
    decreases els.len() - i,
{
    if i < els.len() {
        let (step, after) = element_step(els[i], store, root, visited, fonts);
        plan_covers_elements(els, i + 1, store, root, after, fonts);
    }
}

/// The HTML text `html` with its local scripts and stylesheets inlined, files
/// being read from `store` and references resolved against `root_path`: the
/// plan of the document's elements, made on the parsed tree and serialized,
/// with the newline policy of `config`. It fails exactly when the plan does,
/// with the plan's error (`Unread` when the store lacks a file).
pub fn inline_html_string(html: &str, root_path: &str, config: Config, store: &FileStore) -> (r:
    Result<String, FilePathError>)
    ensures
        r is Ok <==> element_plan(elements_of(html@), store@, root_path@, config.inline_fonts) is Ok,
        r is Err ==> element_plan(elements_of(html@), store@, root_path@, config.inline_fonts)
            == Err::<Seq<ActionView>, ErrorView>(r->Err_0@),
        r is Ok ==> r->Ok_0@ == finished(
            inlined_text(
                html@,
                changes_of(
                    element_plan(elements_of(html@), store@, root_path@, config.inline_fonts)->Ok_0,
                ),
            ),
            config.remove_new_lines,
        ),
        r is Ok && config.remove_new_lines ==> !r->Ok_0@.contains('\n'),
{
    let root = String::from_str(root_path);
    let (mut doc, infos) = Document::parse(html);
    let ghost plan = element_plan(elements_of(html@), store@, root_path@, config.inline_fonts);
    let acts = match plan_elements(&infos, store, &root, config) {
        Ok(acts) => acts,
        Err(e) => {
            return Err(e);
        },
    };
    proof {
        plan_covers_elements(elements_of(html@), 0, store@, root_path@, Seq::empty(), config.inline_fonts);
    }
    let ghost av = actions_view(acts@);
    let mut j: usize = 0;
    assert(av.take(0) =~= Seq::<ActionView>::empty());
    while j < acts.len()
        invariant
            j <= acts.len(),
            av == actions_view(acts@),
            acts@.len() == doc.len(),
            doc.source() == html@,
            doc.changes() == changes_of(av.take(j as int)),
        decreases acts.len() - j,
    {
        apply(&mut doc, j, &acts[j]);
        assert(av.take(j + 1).drop_last() =~= av.take(j as int));
        j = j + 1;
    }
    assert(av.take(j as int) =~= av);
    let text = doc.serialize();
    Ok(finish_output(text.as_str(), config.remove_new_lines))
}

/// Two links to one local stylesheet: when the document can be inlined, the
/// second link always goes; without font embedding, the first becomes the
/// expanded stylesheet (or goes, if it expands to a repeat).
pub proof fn duplicate_link_dropped(
    e: ElementView,
    store: Seq<(Seq<char>, OutcomeView)>,
    root: Seq<char>,
    fonts: bool,
)
    requires
        stylesheet_target(e, root) is Some,
        element_plan(seq![e, e], store, root, fonts) is Ok,
    ensures
        element_plan(seq![e, e], store, root, fonts)->Ok_0.len() == 2,
        !fonts ==> element_plan(seq![e, e], store, root, fonts)->Ok_0[0] == match css_expansion(
            store,
            stylesheet_target(e, root)->0,
            root,
            Seq::empty(),
        ).0 {
            Ok(css) => ActionView::InlineStyle(css),
            _ => ActionView::Drop,
        },
        element_plan(seq![e, e], store, root, fonts)->Ok_0[1] == ActionView::Drop,
{
    reveal_strlit("link");
    reveal_strlit("script");
    let path = stylesheet_target(e, root)->0;
    let els = seq![e, e];
    assert(script_target(e, root) is None) by {
        assert("link"@.len() != "script"@.len());
    }
    let empty = Seq::<Seq<char>>::empty();
    let x = css_expansion(store, path, root, empty);
    reveal_with_fuel(plan_from, 3);
    match lookup(store, path) {
        Some(OutcomeView::Found(canonical, bytes)) => {
            assert(store.len() > 0);
            assert(!empty.contains(canonical));
            let pushed = empty.push(canonical);
            if utf8_text(bytes) is Some {
                let text = utf8_text(bytes)->0;
                let ps = import_split(urls_rewritten(comments_removed(text), canonical, root));
                imports_extend_visited(store, ps, 0, root, pushed, (store.len() - 1) as nat);
            }
            assert(x.1.subrange(0, 1)[0] == canonical);
            assert(x.1[0] == canonical);
            assert(x.1.contains(canonical));
            visited_stylesheet_is_repeated(store, path, root, x.1, store.len(), canonical, bytes);
            let second = element_step(e, store, root, x.1, fonts);
            assert(second.0 == Ok::<ActionView, ErrorView>(ActionView::Drop));
        },
        _ => {},
    }
}

/// A `<link>` or `<script>` whose reference is remote stays as it is, and the
/// visited set with it: remote references are never read or embedded.
pub proof fn remote_element_kept(
    e: ElementView,
    store: Seq<(Seq<char>, OutcomeView)>,
    root: Seq<char>,
    visited: Seq<Seq<char>>,
    fonts: bool,
)
    requires
        (e.href is Some && is_remote(e.href->0)) || e.tag != "link"@,
        (e.src is Some && is_remote(e.src->0)) || e.tag != "script"@,
    ensures
        element_step(e, store, root, visited, fonts) == (
            Ok::<ActionView, ErrorView>(ActionView::Keep),
            visited,
        ),
{
}

proof fn plan_from_never_repeated(
    els: Seq<ElementView>,
    i: int,
    store: Seq<(Seq<char>, OutcomeView)>,
    root: Seq<char>,
    visited: Seq<Seq<char>>,
    fonts: bool,
)
    ensures
        !(plan_from(els, i, store, root, visited, fonts) is Err && plan_from(
            els,
            i,
            store,
            root,
            visited,
            fonts,
        )->Err_0 is RepeatedFile),
    decreases els.len() - i,
{
    if !(i < 0 || i >= els.len()) {
        let e = els[i];
        let (step, after) = element_step(e, store, root, visited, fonts);
        plan_from_never_repeated(els, i + 1, store, root, after, fonts);
        if script_target(e, root) is None && stylesheet_target(e, root) is Some {
            let x = css_expansion(store, stylesheet_target(e, root)->0, root, visited);
            if x.0 is Ok {
                fonts_never_repeated(x.0->Ok_0, store, root);
            }
        }
    }
}

/// Inlining a document never fails with `RepeatedFile`: a stylesheet reached
/// twice is dropped, and an import reached twice adds nothing.
pub proof fn plan_never_repeated(
    els: Seq<ElementView>,
    store: Seq<(Seq<char>, OutcomeView)>,
    root: Seq<char>,
    fonts: bool,
)
    ensures
        !(element_plan(els, store, root, fonts) is Err && element_plan(
            els,
            store,
            root,
            fonts,
        )->Err_0 is RepeatedFile),
{
    plan_from_never_repeated(els, 0, store, root, Seq::empty(), fonts);
}

} // verus!
