//! Serving the files that come with the dashboard.
use vstd::prelude::*;
use vstd::string::*;

verus! {

/// A path without the slashes it begins with.
pub open spec fn without_slashes(path: Seq<char>) -> Seq<char>
    decreases path.len(),
{
    if path.len() > 0 && path[0] == '/' {
        without_slashes(path.drop_first())
    } else {
        path
    }
}

/// The name under which the file at a path is kept.
pub fn asset_name(path: &str) -> (name: String)
    ensures
        name@ == without_slashes(path@),
{
    let n: usize = path.unicode_len();
    let mut at: usize = 0;
    assert(path@.skip(0) =~= path@);
    while at < n && path.get_char(at) == '/'
        invariant
            at <= n,
            n == path@.len(),
            without_slashes(path@) == without_slashes(path@.skip(at as int)),
        ensures
            at <= n,
            without_slashes(path@) == without_slashes(path@.skip(at as int)),
            at == n || path@[at as int] != '/',
        decreases n - at,
    {
        assert(path@.skip(at as int).drop_first() =~= path@.skip(at + 1));
        at = at + 1;
    }
    assert(path@.subrange(at as int, n as int) =~= path@.skip(at as int));
    path.substring_char(at, n).to_owned()
}

/// Whether a path has the same parts on every platform: a backslash parts one, and a colon
/// begins one, on some only.
pub open spec fn is_portable(path: Seq<char>) -> bool {
    !path.contains('\\') && !path.contains(':')
}

/// The media type that is guessed for a file by its path.
pub uninterp spec fn guessed_type(path: Seq<char>) -> Seq<char>;

/// Guesses a media type with `mime_guess::from_path`, `MimeGuess::first_or_octet_stream` and
/// `Mime::essence_str`, which look the extension of the path up in a fixed table. Nothing is
/// said of a path whose extension depends on the platform.
#[verifier::external_body]
fn guess_type(path: &str) -> (essence: String)
    ensures
        is_portable(path@) ==> essence@ == guessed_type(path@),
{
    mime_guess::from_path(path).first_or_octet_stream().essence_str().to_string()
}

/// What a request for a file is answered.
#[derive(Clone, Debug)]
pub enum AssetAnswer {
    /// The file, with its media type.
    Found(String),
    NotFound,
}

/// Decides what a request for a file is answered.
pub fn answer_asset(path: &str, is_kept: bool) -> (answer: AssetAnswer)
    ensures
        match answer {
            AssetAnswer::Found(essence) => is_kept && (is_portable(without_slashes(path@))
                ==> essence@ == guessed_type(without_slashes(path@))),
            AssetAnswer::NotFound => !is_kept,
        },
{
    if is_kept {
        AssetAnswer::Found(guess_type(asset_name(path).as_str()))
    } else {
        AssetAnswer::NotFound
    }
}

/// A file's name is its path less the slashes it begins with: all of them, and nothing else.
pub proof fn only_leading_slashes_are_dropped(path: Seq<char>) -> (slashes: Seq<char>)
    ensures
        path == slashes + without_slashes(path),
        forall|i: int| 0 <= i < slashes.len() ==> #[trigger] slashes[i] == '/',
        without_slashes(path).len() > 0 ==> without_slashes(path)[0] != '/',
    decreases path.len(),
{
    if path.len() > 0 && path[0] == '/' {
        let shorter = path.drop_first();
        let slashes = only_leading_slashes_are_dropped(shorter);
        assert(shorter == slashes + without_slashes(path));
        assert(path =~= seq!['/'] + shorter);
        assert(path =~= (seq!['/'] + slashes) + without_slashes(path));
        seq!['/'] + slashes
    } else {
        assert(path =~= Seq::<char>::empty() + path);
        Seq::empty()
    }
}

} // verus!
