//! Options of the URL fetcher and the names of the files it saves.
use vstd::prelude::*;

verus! {

/// Options of a fetch run.
pub struct Cli {
    /// The URLs to fetch.
    pub urls: Vec<String>,
    /// Seconds allowed for each request.
    pub timeout: u64,
    /// How many requests may run at once.
    pub max_concurrent: usize,
    /// Show only status and headers.
    pub status_only: bool,
    /// Where to save the responses.
    pub save_dir: Option<String>,
}

/// `s` with every match of `from`, found left to right without overlap,
/// replaced by `to`.
pub open spec fn replaced(s: Seq<char>, from: Seq<char>, to: Seq<char>) -> Seq<char>
    decreases s.len(),
{
    if s.len() == 0 {
        s
    } else if from.len() > 0 && from.len() <= s.len() && s.subrange(0, from.len() as int) == from {
        to + replaced(s.subrange(from.len() as int, s.len() as int), from, to)
    } else {
        seq![s[0]] + replaced(s.drop_first(), from, to)
    }
}

/// Relies on `str::replace`: every non-overlapping match of a non-empty
/// pattern, left to right, is replaced.
#[verifier::external_body]
fn replace_text(s: &str, from: &str, to: &str) -> (r: String)
    requires
        from@.len() > 0,
    ensures
        r@ == replaced(s@, from@, to@),
{
    s.replace(from, to)
}

/// The file name under which the response of `url` is saved.
pub open spec fn file_name_of(url: Seq<char>) -> Seq<char> {
    let a = replaced(url, "http://"@, ""@);
    let b = replaced(a, "https://"@, ""@);
    let c = replaced(b, "/"@, "_"@);
    let d = replaced(c, "?"@, "_"@);
    let e = replaced(d, "&"@, "_"@);
    replaced(e, "="@, "_"@) + ".txt"@
}

/// The file name for `url`: the scheme dropped, `/ ? & =` turned into `_`,
/// and `.txt` appended.
pub fn generate_filename(url: &str) -> (r: String)
    ensures
        r@ == file_name_of(url@),
{
    proof {
        reveal_strlit("http://");
        reveal_strlit("https://");
        reveal_strlit("/");
        reveal_strlit("?");
        reveal_strlit("&");
        reveal_strlit("=");
    }
    let a = replace_text(url, "http://", "");
    let b = replace_text(a.as_str(), "https://", "");
    let c = replace_text(b.as_str(), "/", "_");
    let d = replace_text(c.as_str(), "?", "_");
    let e = replace_text(d.as_str(), "&", "_");
    let mut f = replace_text(e.as_str(), "=", "_");
    f.append(".txt");
    f
}

} // verus!
