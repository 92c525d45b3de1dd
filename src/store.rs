use vstd::prelude::*;
use vstd::utf8::{decode_utf8, valid_utf8};

verus! {

/// What reading one path from the file system gave.
#[derive(Debug, Clone)]
pub enum ReadOutcome {
    /// The file exists: its canonical path and its bytes.
    Found { canonical: String, bytes: Vec<u8> },
    /// No file exists at the path.
    NotFound,
    /// The path could not be resolved for another reason, described by
    /// `cause`.
    Failed(String),
    /// The path resolves to `canonical`, but reading it failed for the reason
    /// described by `cause`.
    Unreadable { canonical: String, cause: String },
}

/// The mathematical value of a [`ReadOutcome`].
pub enum OutcomeView {
    Found(Seq<char>, Seq<u8>),
    NotFound,
    Failed(Seq<char>),
    Unreadable(Seq<char>, Seq<char>),
}

impl ReadOutcome {
    pub open spec fn view(&self) -> OutcomeView {
        match self {
            ReadOutcome::Found { canonical, bytes } => OutcomeView::Found(canonical@, bytes@),
            ReadOutcome::NotFound => OutcomeView::NotFound,
            ReadOutcome::Failed(cause) => OutcomeView::Failed(cause@),
            ReadOutcome::Unreadable { canonical, cause } => OutcomeView::Unreadable(
                canonical@,
                cause@,
            ),
        }
    }
}

/// The files read so far, each under the path it was asked for. A later
/// record for a path takes the place of an earlier one.
pub struct FileStore {
    entries: Vec<(String, ReadOutcome)>,
}

/// The outcome recorded last for `path`, if any.
pub open spec fn lookup(entries: Seq<(Seq<char>, OutcomeView)>, path: Seq<char>) -> Option<
    OutcomeView,
>
    decreases entries.len(),
{
    if entries.len() == 0 {
        None
    } else if entries.last().0 == path {
        Some(entries.last().1)
    } else {
        lookup(entries.drop_last(), path)
    }
}

impl FileStore {
    pub closed spec fn view(&self) -> Seq<(Seq<char>, OutcomeView)> {
        Seq::new(
            self.entries@.len(),
            |i: int| (self.entries@[i].0@, self.entries@[i].1@),
        )
    }

    /// A store with nothing recorded.
    pub fn new() -> (r: FileStore)
        ensures
            r@ == Seq::<(Seq<char>, OutcomeView)>::empty(),
    {
        let r = FileStore { entries: Vec::new() };
        assert(r@ =~= Seq::<(Seq<char>, OutcomeView)>::empty());
        r
    }

    /// The number of records.
    pub fn len(&self) -> (r: usize)
        ensures
            r == self@.len(),
    {
        self.entries.len()
    }

    /// Records what reading `path` gave.
    pub fn insert(&mut self, path: String, outcome: ReadOutcome)
        ensures
            final(self)@ == old(self)@.push((path@, outcome@)),
    {
        self.entries.push((path, outcome));
        assert(self@ =~= old(self)@.push((path@, outcome@)));
    }

    /// The outcome recorded last for `path`, if any.
    pub fn get(&self, path: &String) -> (r: Option<&ReadOutcome>)
        ensures
            match r {
                Some(o) => lookup(self@, path@) == Some(o@),
                None => lookup(self@, path@) is None,
            },
    {
        let mut i: usize = self.entries.len();
        assert(self@.subrange(0, i as int) =~= self@);
        while i > 0
            invariant
                i <= self.entries.len(),
                lookup(self@, path@) == lookup(self@.subrange(0, i as int), path@),
            decreases i,
        {
            let ghost pre = self@.subrange(0, i as int);
            assert(pre.drop_last() =~= self@.subrange(0, i - 1));
            if self.entries[i - 1].0 == *path {
                return Some(&self.entries[i - 1].1);
            }
            i = i - 1;
        }
        None
    }
}

/// The text that `bytes` encode, when they are valid UTF-8.
pub open spec fn utf8_text(bytes: Seq<u8>) -> Option<Seq<char>> {
    if valid_utf8(bytes) {
        Some(decode_utf8(bytes))
    } else {
        None
    }
}

/// What a text read of invalid UTF-8 fails with.
pub open spec fn invalid_utf8_message() -> Seq<char> {
    "stream did not contain valid UTF-8"@
}

/// Relies on `String::from_utf8`: the text, exactly when the bytes are valid
/// UTF-8.
#[verifier::external_body]
fn from_utf8(bytes: &Vec<u8>) -> (r: Option<String>)
    ensures
        match r {
            Some(s) => utf8_text(bytes@) == Some(s@),
            None => utf8_text(bytes@) is None,
        },
{
    String::from_utf8(bytes.clone()).ok()
}

/// The text of a file read as `bytes`, or the cause of the failure.
pub fn text_of(bytes: &Vec<u8>) -> (r: Result<String, String>)
    ensures
        match r {
            Ok(s) => utf8_text(bytes@) == Some(s@),
            Err(m) => utf8_text(bytes@) is None && m@ == invalid_utf8_message(),
        },
{
    match from_utf8(bytes) {
        Some(s) => Ok(s),
        None => Err(String::from_str("stream did not contain valid UTF-8")),
    }
}

} // verus!
