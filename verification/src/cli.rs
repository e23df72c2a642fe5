//! The command line: which words are flags, what each flag takes, and how
//! what the command line says is laid over a resume record.

use vstd::prelude::*;
use vstd::string::StringExecFns;
use vstd::utf8::encode_utf8;
use crate::config::{copy_cursors, copy_text, text_view, Config, ConfigView, DEFAULT_CONCURRENCY};
use crate::text::{parse_u64, parsed_u64};

verus! {

/// The flags of the command line. Each takes the word after it.
#[derive(Clone, Copy, Debug, PartialEq, Eq)]
pub enum Flag {
    /// `--continue`, `-c`: the resume record of an earlier run.
    Continue,
    /// `--cookie`, `--cookies`, `-coo`: a cookie jar.
    Cookie,
    /// `--thread`, `-t`: the concurrency.
    Thread,
    /// `--output`, `-o`: where the bytes go.
    Output,
    /// `--proxy`, `-p`: a proxy.
    Proxy,
}

/// Why a command line is refused.
#[derive(Clone, Copy, Debug, PartialEq, Eq)]
pub enum CliError {
    /// The last word is a flag, and nothing follows it.
    MissingValue,
    /// The word after the concurrency flag is no number.
    InvalidConcurrency,
}

/// What a command line asks for.
#[derive(Clone, Debug, PartialEq, Eq)]
pub struct CliRequest {
    /// The resource; empty where the command line names none.
    pub url: String,
    /// Number of segments.
    pub concurrency: u64,
    /// Where the bytes go.
    pub output_path: Option<String>,
    /// A proxy for the requests.
    pub proxy: Option<String>,
    /// The file that holds the cookie jar.
    pub cookie_file: Option<String>,
    /// The file that holds the resume record of the run to continue.
    pub resume_file: Option<String>,
}

/// A `CliRequest` as a mathematical value.
pub struct CliView {
    pub url: Seq<char>,
    pub concurrency: u64,
    pub output_path: Option<Seq<char>>,
    pub proxy: Option<Seq<char>>,
    pub cookie_file: Option<Seq<char>>,
    pub resume_file: Option<Seq<char>>,
}

impl View for CliRequest {
    type V = CliView;

    open spec fn view(&self) -> CliView {
        CliView {
            url: self.url@,
            concurrency: self.concurrency,
            output_path: text_view(self.output_path),
            proxy: text_view(self.proxy),
            cookie_file: text_view(self.cookie_file),
            resume_file: text_view(self.resume_file),
        }
    }
}

/// The flag that a word is, if it is one.
pub open spec fn flag_of(word: Seq<char>) -> Option<Flag> {
    if word == "--continue"@ || word == "-c"@ {
        Some(Flag::Continue)
    } else if word == "--cookie"@ || word == "--cookies"@ || word == "-coo"@ {
        Some(Flag::Cookie)
    } else if word == "--thread"@ || word == "-t"@ {
        Some(Flag::Thread)
    } else if word == "--output"@ || word == "-o"@ {
        Some(Flag::Output)
    } else if word == "--proxy"@ || word == "-p"@ {
        Some(Flag::Proxy)
    } else {
        None
    }
}

/// What a command line asks for before its first word is read.
pub open spec fn empty_request() -> CliView {
    CliView {
        url: Seq::empty(),
        concurrency: DEFAULT_CONCURRENCY,
        output_path: None,
        proxy: None,
        cookie_file: None,
        resume_file: None,
    }
}

/// A request after a flag and its value have been read.
pub open spec fn with_flag(request: CliView, flag: Flag, value: Seq<char>) -> Result<CliView, CliError> {
    match flag {
        Flag::Continue => Ok(CliView { resume_file: Some(value), ..request }),
        Flag::Cookie => Ok(CliView { cookie_file: Some(value), ..request }),
        Flag::Output => Ok(CliView { output_path: Some(value), ..request }),
        Flag::Proxy => Ok(CliView { proxy: Some(value), ..request }),
        Flag::Thread => match parsed_u64(encode_utf8(value)) {
            Some(n) => Ok(CliView { concurrency: n, ..request }),
            None => Err(CliError::InvalidConcurrency),
        },
    }
}

/// Reads the words from position `i` on into a request. A flag takes the
/// word after it as its value, whatever that word is; any other word is the
/// resource. Of two words for the same thing the later one counts.
pub open spec fn read_words(words: Seq<Seq<char>>, i: int, request: CliView) -> Result<CliView, CliError>
    decreases words.len() - i,
{
    if i < 0 || i >= words.len() {
        Ok(request)
    } else {
        match flag_of(words[i]) {
            None => read_words(words, i + 1, CliView { url: words[i], ..request }),
            Some(flag) => if i + 1 >= words.len() {
                Err(CliError::MissingValue)
            } else {
                match with_flag(request, flag, words[i + 1]) {
                    Ok(next) => read_words(words, i + 2, next),
                    Err(e) => Err(e),
                }
            },
        }
    }
}

/// The words of a command line as mathematical values.
pub open spec fn words_of(args: Seq<String>) -> Seq<Seq<char>> {
    Seq::new(args.len(), |i: int| args[i]@)
}

/// The configuration of a run: what the command line asks for, laid over the
/// resume record where the run continues an earlier one. Of the record, the
/// command line replaces the resource, the proxy and the cookies, each only
/// where it names one; the concurrency, the output and the cursors are those
/// of the record.
pub open spec fn resolved(request: CliView, cookies: Option<Seq<char>>, record: Option<ConfigView>) -> ConfigView {
    match record {
        None => ConfigView {
            concurrency: request.concurrency,
            url: request.url,
            output_path: request.output_path,
            proxy: request.proxy,
            cookie_header: cookies,
            resume_cursors: None,
        },
        Some(r) => ConfigView {
            concurrency: r.concurrency,
            url: if request.url.len() > 0 {
                request.url
            } else {
                r.url
            },
            output_path: r.output_path,
            proxy: if request.proxy is Some {
                request.proxy
            } else {
                r.proxy
            },
            cookie_header: if cookies is Some {
                cookies
            } else {
                r.cookie_header
            },
            resume_cursors: r.resume_cursors,
        },
    }
}

/// The names of the flags, as texts to compare with.
struct FlagNames {
    resume_long: String,
    resume_short: String,
    cookie_long: String,
    cookies_long: String,
    cookie_short: String,
    thread_long: String,
    thread_short: String,
    output_long: String,
    output_short: String,
    proxy_long: String,
    proxy_short: String,
}

impl FlagNames {
    spec fn wf(&self) -> bool {
        &&& self.resume_long@ == "--continue"@
        &&& self.resume_short@ == "-c"@
        &&& self.cookie_long@ == "--cookie"@
        &&& self.cookies_long@ == "--cookies"@
        &&& self.cookie_short@ == "-coo"@
        &&& self.thread_long@ == "--thread"@
        &&& self.thread_short@ == "-t"@
        &&& self.output_long@ == "--output"@
        &&& self.output_short@ == "-o"@
        &&& self.proxy_long@ == "--proxy"@
        &&& self.proxy_short@ == "-p"@
    }

    fn new() -> (names: FlagNames)
        ensures
            names.wf(),
    {
        FlagNames {
            resume_long: String::from_str("--continue"),
            resume_short: String::from_str("-c"),
            cookie_long: String::from_str("--cookie"),
            cookies_long: String::from_str("--cookies"),
            cookie_short: String::from_str("-coo"),
            thread_long: String::from_str("--thread"),
            thread_short: String::from_str("-t"),
            output_long: String::from_str("--output"),
            output_short: String::from_str("-o"),
            proxy_long: String::from_str("--proxy"),
            proxy_short: String::from_str("-p"),
        }
    }

    fn flag(&self, word: &String) -> (r: Option<Flag>)
        requires
            self.wf(),
        ensures
            r == flag_of(word@),
    {
        if *word == self.resume_long || *word == self.resume_short {
            Some(Flag::Continue)
        } else if *word == self.cookie_long || *word == self.cookies_long || *word == self.cookie_short {
            Some(Flag::Cookie)
        } else if *word == self.thread_long || *word == self.thread_short {
            Some(Flag::Thread)
        } else if *word == self.output_long || *word == self.output_short {
            Some(Flag::Output)
        } else if *word == self.proxy_long || *word == self.proxy_short {
            Some(Flag::Proxy)
        } else {
            None
        }
    }
}

/// Reads a command line, given as its words without the name of the program.
pub fn parse_args(args: &Vec<String>) -> (r: Result<CliRequest, CliError>)
    ensures
        match r {
            Ok(request) => read_words(words_of(args@), 0, empty_request()) == Ok::<CliView, CliError>(request@),
            Err(e) => read_words(words_of(args@), 0, empty_request()) == Err::<CliView, CliError>(e),
        },
{
    let names = FlagNames::new();
    let ghost words = words_of(args@);
    let mut request = CliRequest {
        url: String::new(),
        concurrency: DEFAULT_CONCURRENCY,
        output_path: None,
        proxy: None,
        cookie_file: None,
        resume_file: None,
    };
    assert(request@.url =~= empty_request().url);
    let mut i: usize = 0;
    while i < args.len()
        invariant
            names.wf(),
            words == words_of(args@),
            i <= args@.len(),
            read_words(words, 0, empty_request()) == read_words(words, i as int, request@),
        decreases args@.len() - i,
    {
        let word = &args[i];
        assert(words[i as int] == word@);
        match names.flag(word) {
            None => {
                request.url = word.clone();
                i = i + 1;
            },
            Some(flag) => {
                if i + 1 >= args.len() {
                    return Err(CliError::MissingValue);
                }
                let value = &args[i + 1];
                assert(words[i + 1] == value@);
                match flag {
                    Flag::Continue => {
                        request.resume_file = Some(value.clone());
                    },
                    Flag::Cookie => {
                        request.cookie_file = Some(value.clone());
                    },
                    Flag::Output => {
                        request.output_path = Some(value.clone());
                    },
                    Flag::Proxy => {
                        request.proxy = Some(value.clone());
                    },
                    Flag::Thread => {
                        match parse_u64(value.as_str().as_bytes()) {
                            Some(n) => {
                                request.concurrency = n;
                            },
                            None => {
                                return Err(CliError::InvalidConcurrency);
                            },
                        }
                    },
                }
                i = i + 2;
            },
        }
    }
    Ok(request)
}

/// Makes the configuration of a run from what the command line asks for,
/// the cookies read from the jar it names, and the resume record it names.
pub fn resolve(request: &CliRequest, cookies: Option<String>, record: Option<&Config>) -> (config: Config)
    ensures
        config@ == resolved(
            request@,
            text_view(cookies),
            match record {
                Some(r) => Some(r@),
                None => None,
            },
        ),
{
    match record {
        None => Config {
            concurrency: request.concurrency,
            url: request.url.clone(),
            output_path: copy_text(&request.output_path),
            proxy: copy_text(&request.proxy),
            cookie_header: cookies,
            resume_cursors: None,
        },
        Some(r) => Config {
            concurrency: r.concurrency,
            url: if request.url.as_str().unicode_len() > 0 {
                request.url.clone()
            } else {
                r.url.clone()
            },
            output_path: copy_text(&r.output_path),
            proxy: if request.proxy.is_some() {
                copy_text(&request.proxy)
            } else {
                copy_text(&r.proxy)
            },
            cookie_header: if cookies.is_some() {
                cookies
            } else {
                copy_text(&r.cookie_header)
            },
            resume_cursors: match &r.resume_cursors {
                Some(c) => Some(copy_cursors(c)),
                None => None,
            },
        },
    }
}

} // verus!
