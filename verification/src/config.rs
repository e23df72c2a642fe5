//! The configuration of a run, and the resume record that is made from it.

use vstd::prelude::*;
use vstd::string::StringExecFns;

verus! {

/// Segments of a run that names no concurrency.
pub const DEFAULT_CONCURRENCY: u64 = 3;

/// What a run is asked to do. It is built once, before any transfer, and
/// read from then on.
#[derive(Clone, Debug, PartialEq, Eq)]
pub struct Config {
    /// Number of segments.
    pub concurrency: u64,
    /// The resource to fetch.
    pub url: String,
    /// Where the bytes go; `output` where none is named.
    pub output_path: Option<String>,
    /// A proxy for the requests.
    pub proxy: Option<String>,
    /// The value of the `Cookie` header.
    pub cookie_header: Option<String>,
    /// The cursors that an earlier run left, one for each of its segments.
    pub resume_cursors: Option<Vec<i64>>,
}

/// A `Config` as a mathematical value.
pub struct ConfigView {
    pub concurrency: u64,
    pub url: Seq<char>,
    pub output_path: Option<Seq<char>>,
    pub proxy: Option<Seq<char>>,
    pub cookie_header: Option<Seq<char>>,
    pub resume_cursors: Option<Seq<i64>>,
}

/// An optional text as a mathematical value.
pub open spec fn text_view(text: Option<String>) -> Option<Seq<char>> {
    match text {
        Some(s) => Some(s@),
        None => None,
    }
}

impl View for Config {
    type V = ConfigView;

    open spec fn view(&self) -> ConfigView {
        ConfigView {
            concurrency: self.concurrency,
            url: self.url@,
            output_path: text_view(self.output_path),
            proxy: text_view(self.proxy),
            cookie_header: text_view(self.cookie_header),
            resume_cursors: match self.resume_cursors {
                Some(c) => Some(c@),
                None => None,
            },
        }
    }
}

/// The file that receives the bytes where the configuration names none.
pub open spec fn default_output() -> Seq<char> {
    seq!['o', 'u', 't', 'p', 'u', 't']
}

/// What is appended to the path of the output to name the resume record.
pub open spec fn record_suffix() -> Seq<char> {
    seq!['.', 'm', 'g', 'e', 't']
}

impl ConfigView {
    /// Where the bytes go.
    pub open spec fn output(self) -> Seq<char> {
        match self.output_path {
            Some(p) => p,
            None => default_output(),
        }
    }

    /// Where the resume record goes: beside the output.
    pub open spec fn record_path(self) -> Seq<char> {
        self.output() + record_suffix()
    }

    /// The configuration that the resume record holds: this one, with the
    /// given cursors.
    pub open spec fn with_cursors(self, cursors: Seq<i64>) -> ConfigView {
        ConfigView { resume_cursors: Some(cursors), ..self }
    }
}

/// A copy of an optional text.
pub fn copy_text(text: &Option<String>) -> (r: Option<String>)
    ensures
        text_view(r) == text_view(*text),
{
    match text {
        Some(s) => Some(s.clone()),
        None => None,
    }
}

/// A copy of a list of cursors.
pub fn copy_cursors(cursors: &Vec<i64>) -> (r: Vec<i64>)
    ensures
        r@ == cursors@,
{
    let mut r: Vec<i64> = Vec::new();
    let mut i: usize = 0;
    while i < cursors.len()
        invariant
            i <= cursors@.len(),
            r@ == cursors@.take(i as int),
        decreases cursors@.len() - i,
    {
        r.push(cursors[i]);
        assert(cursors@.take(i + 1) =~= cursors@.take(i as int).push(cursors@[i as int]));
        i = i + 1;
    }
    assert(cursors@.take(i as int) =~= cursors@);
    r
}

impl Config {
    /// The configuration of a fresh run for a resource: the default
    /// concurrency and nothing else set.
    pub fn new(url: String) -> (c: Config)
        ensures
            c@ == (ConfigView {
                concurrency: DEFAULT_CONCURRENCY,
                url: url@,
                output_path: None,
                proxy: None,
                cookie_header: None,
                resume_cursors: None,
            }),
    {
        Config {
            concurrency: DEFAULT_CONCURRENCY,
            url,
            output_path: None,
            proxy: None,
            cookie_header: None,
            resume_cursors: None,
        }
    }

    /// Where the bytes go.
    pub fn output(&self) -> (p: String)
        ensures
            p@ == self@.output(),
    {
        match &self.output_path {
            Some(p) => p.clone(),
            None => {
                proof {
                    reveal_strlit("output");
                }
                let p = String::from_str("output");
                assert(p@ =~= default_output());
                p
            },
        }
    }

    /// Where the resume record goes.
    pub fn record_path(&self) -> (p: String)
        ensures
            p@ == self@.record_path(),
    {
        proof {
            reveal_strlit(".mget");
        }
        let mut p = self.output();
        p.append(".mget");
        assert(p@ =~= self@.record_path());
        p
    }

    /// The run continues an earlier one. The output of such a run holds
    /// bytes already and must not be created anew.
    pub fn resumes(&self) -> (r: bool)
        ensures
            r == self@.resume_cursors is Some,
    {
        self.resume_cursors.is_some()
    }

    /// The configuration that the resume record holds: this one, with the
    /// given cursors.
    pub fn with_cursors(&self, cursors: Vec<i64>) -> (c: Config)
        ensures
            c@ == self@.with_cursors(cursors@),
    {
        Config {
            concurrency: self.concurrency,
            url: self.url.clone(),
            output_path: copy_text(&self.output_path),
            proxy: copy_text(&self.proxy),
            cookie_header: copy_text(&self.cookie_header),
            resume_cursors: Some(cursors),
        }
    }
}

} // verus!
