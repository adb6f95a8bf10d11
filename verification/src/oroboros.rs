//! The document-store client of the attachment uploader: its settings, the
//! URLs of documents and attachments, and how long to wait between retries.
use vstd::prelude::*;
use vstd::utf8::encode_utf8;
use rand::Rng;
use crate::scan::{parse_u64_decimal, parse_u64_spec};

verus! {

/// Settings of the document-store client.
pub struct CouchConfig {
    pub base: String,
    pub db: String,
    pub user: Option<String>,
    pub pass: Option<String>,
    pub concurrency: usize,
    pub max_retries: usize,
}

/// The characters a URL keeps as they are: ASCII letters and digits and
/// `-`, `.`, `_`, `~`.
pub open spec fn unreserved(c: char) -> bool {
    ('0' <= c && c <= '9') || ('A' <= c && c <= 'Z') || ('a' <= c && c <= 'z') || c == '-' || c
        == '.' || c == '_' || c == '~'
}

/// Upper-case hexadecimal digit of a value below 16.
pub open spec fn hex_upper(d: nat) -> char {
    if d < 10 {
        (48 + d) as char
    } else {
        (55 + d) as char
    }
}

/// `%` and two upper-case hexadecimal digits for each byte.
pub open spec fn percent_bytes(bs: Seq<u8>) -> Seq<char>
    decreases bs.len(),
{
    if bs.len() == 0 {
        Seq::empty()
    } else {
        percent_bytes(bs.drop_last()) + seq![
            '%',
            hex_upper((bs.last() / 16) as nat),
            hex_upper((bs.last() % 16) as nat),
        ]
    }
}

/// Percent-encoding of text: unreserved characters stay, every byte of the
/// UTF-8 encoding of any other character becomes `%XX`.
pub open spec fn url_encoded(s: Seq<char>) -> Seq<char>
    decreases s.len(),
{
    if s.len() == 0 {
        Seq::empty()
    } else {
        url_encoded(s.drop_last()) + if unreserved(s.last()) {
            seq![s.last()]
        } else {
            percent_bytes(encode_utf8(seq![s.last()]))
        }
    }
}

/// Percent-encodes a path segment with `urlencoding::encode`: every byte
/// except ASCII letters, digits and `-`, `_`, `.`, `~` becomes `%` and two
/// upper-case hexadecimal digits, as the crate's source does.
#[verifier::external_body]
fn url_encode(s: &str) -> (r: String)
    ensures
        r@ == url_encoded(s@),
{
    urlencoding::encode(s).into_owned()
}

/// A number in `[0, bound)` drawn by `rand`'s thread-local generator.
#[verifier::external_body]
fn random_below(bound: u64) -> (r: u64)
    requires
        bound > 0,
    ensures
        r < bound,
{
    rand::thread_rng().gen_range(0..bound)
}

/// Text without its trailing `/` characters.
pub open spec fn trim_trailing_slashes(s: Seq<char>) -> Seq<char>
    decreases s.len(),
{
    if s.len() > 0 && s.last() == '/' {
        trim_trailing_slashes(s.drop_last())
    } else {
        s
    }
}

/// `base` without its trailing slashes, as `trim_end_matches('/')` gives it.
pub fn trim_slashes(base: &str) -> (r: &str)
    ensures
        r@ == trim_trailing_slashes(base@),
{
    let mut end = base.unicode_len();
    proof {
        assert(base@.subrange(0, end as int) =~= base@);
    }
    while end > 0 && base.get_char(end - 1) == '/'
        invariant
            end <= base@.len(),
            trim_trailing_slashes(base@) == trim_trailing_slashes(base@.subrange(0, end as int)),
        decreases end,
    {
        proof {
            let t = base@.subrange(0, end as int);
            assert(t.drop_last() =~= base@.subrange(0, end - 1));
        }
        end = end - 1;
    }
    base.substring_char(0, end)
}

/// The URL of a document: the base without trailing slashes, the database
/// and the document id, percent-encoded, joined by `/`.
pub open spec fn doc_url_spec(base: Seq<char>, db: Seq<char>, docid: Seq<char>) -> Seq<char> {
    trim_trailing_slashes(base) + "/"@ + db + "/"@ + url_encoded(docid)
}

/// The URL of an attachment of a document, with the revision it replaces
/// as a query when there is one.
pub open spec fn attachment_url_spec(
    base: Seq<char>,
    db: Seq<char>,
    docid: Seq<char>,
    name: Seq<char>,
    rev: Option<Seq<char>>,
) -> Seq<char> {
    let url = doc_url_spec(base, db, docid) + "/"@ + url_encoded(name);
    match rev {
        Some(r) => url + "?rev="@ + r,
        None => url,
    }
}

/// The delay before retry number `attempt` (from 1): `base` doubled for
/// every earlier attempt, saturating, plus the jitter, at most `cap`.
pub open spec fn backoff_spec(base: u64, attempt: nat, jitter: u64, cap: u64) -> nat {
    let e = if attempt >= 1 { (attempt - 1) as nat } else { 0 };
    let scaled = base * vstd::arithmetic::power2::pow2(e);
    let backoff = if scaled > u64::MAX { u64::MAX as nat } else { scaled as nat };
    if backoff + jitter < cap {
        (backoff + jitter) as nat
    } else {
        cap as nat
    }
}

/// The attempts whose delay is computed without overflow: the power of two
/// fits in a `u64` and so does the saturated backoff plus the jitter.
pub open spec fn backoff_computable(base: u64, attempt: nat, jitter: u64) -> bool {
    let e = if attempt >= 1 { (attempt - 1) as nat } else { 0 };
    let scaled = base * vstd::arithmetic::power2::pow2(e);
    let backoff = if scaled > u64::MAX { u64::MAX as nat } else { scaled as nat };
    e < 64 && backoff + jitter <= u64::MAX
}

/// The delay in milliseconds before retry number `attempt`, given the
/// jitter drawn for it.
pub fn backoff_wait(base: u64, attempt: usize, jitter: u64, cap: u64) -> (r: u64)
    requires
        backoff_computable(base, attempt as nat, jitter),
    ensures
        r == backoff_spec(base, attempt as nat, jitter, cap),
{
    let e: usize = attempt.saturating_sub(1);
    let mut p: u64 = 1;
    let mut i: usize = 0;
    proof {
        vstd::arithmetic::power2::lemma2_to64();
            vstd::arithmetic::power2::lemma2_to64_rest();
    }
    while i < e
        invariant
            i <= e,
            e < 64,
            p == vstd::arithmetic::power2::pow2(i as nat),
        decreases e - i,
    {
        proof {
            vstd::arithmetic::power2::lemma2_to64();
            vstd::arithmetic::power2::lemma2_to64_rest();
            vstd::arithmetic::power2::lemma_pow2_unfold((i + 1) as nat);
            let k: nat = (i + 1) as nat;
            assert(k <= 63);
            if k < 63 {
                vstd::arithmetic::power2::lemma_pow2_strictly_increases(k, 63);
            }
            assert(vstd::arithmetic::power2::pow2(k) <= vstd::arithmetic::power2::pow2(63));
            assert(vstd::arithmetic::power2::pow2(k) == 2 * p);
            assert(vstd::arithmetic::power2::pow2(63) == 0x8000000000000000);
            assert(2 * p <= 0x8000000000000000);
        }
        p = p * 2;
        i = i + 1;
    }
    let backoff: u64 = if base != 0 && p > u64::MAX / base {
        proof {
            assert(base * p > u64::MAX) by (nonlinear_arith)
                requires
                    base > 0,
                    p > u64::MAX / base,
            ;
        }
        u64::MAX
    } else {
        proof {
            assert(base * p <= u64::MAX) by (nonlinear_arith)
                requires
                    base == 0 || p <= u64::MAX / base,
            ;
        }
        base * p
    };
    let total = backoff + jitter;
    if total < cap {
        total
    } else {
        cap
    }
}

/// Whether the delay before retry number `attempt` is computed without
/// overflow for every jitter below `base`.
pub fn retry_wait_computable(base: u64, attempt: usize) -> (r: bool)
    requires
        base > 0,
    ensures
        r == forall|j: u64| j < base ==> backoff_computable(base, attempt as nat, j),
{
    let e: usize = attempt.saturating_sub(1);
    if e >= 64 {
        proof {
            assert(!backoff_computable(base, attempt as nat, 0));
        }
        return false;
    }
    let ok = backoff_wait_fits(base, attempt);
    proof {
        if ok {
            assert forall|j: u64| j < base implies backoff_computable(base, attempt as nat, j) by {}
        } else {
            assert(!backoff_computable(base, attempt as nat, (base - 1) as u64));
        }
    }
    ok
}

/// With fewer than 64 doublings: whether the saturated backoff plus the
/// largest jitter below `base` fits in a `u64`.
fn backoff_wait_fits(base: u64, attempt: usize) -> (r: bool)
    requires
        base > 0,
        attempt.saturating_sub(1) < 64,
    ensures
        ({
            let e = if attempt >= 1 { (attempt - 1) as nat } else { 0 };
            let scaled = base * vstd::arithmetic::power2::pow2(e);
            let backoff = if scaled > u64::MAX { u64::MAX as nat } else { scaled as nat };
            r == (backoff + base - 1 <= u64::MAX)
        }),
{
    let e: usize = attempt.saturating_sub(1);
    let mut p: u64 = 1;
    let mut i: usize = 0;
    proof {
        vstd::arithmetic::power2::lemma2_to64();
    }
    while i < e
        invariant
            i <= e,
            e < 64,
            p == vstd::arithmetic::power2::pow2(i as nat),
        decreases e - i,
    {
        proof {
            vstd::arithmetic::power2::lemma2_to64();
            vstd::arithmetic::power2::lemma2_to64_rest();
            vstd::arithmetic::power2::lemma_pow2_unfold((i + 1) as nat);
            let k: nat = (i + 1) as nat;
            if k < 63 {
                vstd::arithmetic::power2::lemma_pow2_strictly_increases(k, 63);
            }
        }
        p = p * 2;
        i = i + 1;
    }
    let backoff: u64 = if p > u64::MAX / base {
        proof {
            assert(base * p > u64::MAX) by (nonlinear_arith)
                requires
                    base > 0,
                    p > u64::MAX / base,
            ;
        }
        u64::MAX
    } else {
        proof {
            assert(base * p <= u64::MAX) by (nonlinear_arith)
                requires
                    base > 0,
                    p <= u64::MAX / base,
            ;
        }
        base * p
    };
    backoff <= u64::MAX - (base - 1)
}

/// The delay before retry number `attempt`, with a jitter drawn below
/// `base`: some jitter under `base` gives exactly this delay.
pub fn next_retry_wait(base: u64, attempt: usize, cap: u64) -> (r: u64)
    requires
        base > 0,
        forall|j: u64| j < base ==> backoff_computable(base, attempt as nat, j),
    ensures
        exists|j: u64| j < base && r == backoff_spec(base, attempt as nat, j, cap),
{
    let jitter = random_below(base);
    let r = backoff_wait(base, attempt, jitter, cap);
    assert(jitter < base && r == backoff_spec(base, attempt as nat, jitter, cap));
    r
}

impl CouchConfig {
    /// Requests allowed at once: the configured concurrency, at least one.
    pub fn permits(&self) -> (r: usize)
        ensures
            r == if self.concurrency < 1 {
                1
            } else {
                self.concurrency
            },
    {
        if self.concurrency < 1 {
            1
        } else {
            self.concurrency
        }
    }

    /// The URL of a document, given its id already percent-encoded.
    pub fn doc_url_encoded(&self, docid_enc: &str) -> (r: String)
        ensures
            r@ == trim_trailing_slashes(self.base@) + "/"@ + self.db@ + "/"@ + docid_enc@,
    {
        let mut url = String::from_str(trim_slashes(self.base.as_str()));
        url.append("/");
        url.append(self.db.as_str());
        url.append("/");
        url.append(docid_enc);
        url
    }

    /// The URL of a document.
    pub fn doc_url(&self, docid: &str) -> (r: String)
        ensures
            r@ == doc_url_spec(self.base@, self.db@, docid@),
    {
        let enc = url_encode(docid);
        self.doc_url_encoded(enc.as_str())
    }

    /// The URL of an attachment, with the revision it replaces if known.
    pub fn attachment_url(&self, docid: &str, name: &str, rev: Option<&str>) -> (r: String)
        ensures
            r@ == attachment_url_spec(
                self.base@,
                self.db@,
                docid@,
                name@,
                match rev {
                    Some(s) => Some(s@),
                    None => None,
                },
            ),
    {
        let mut url = self.doc_url(docid);
        let name_enc = url_encode(name);
        url.append("/");
        url.append(name_enc.as_str());
        match rev {
            Some(r) => {
                url.append("?rev=");
                url.append(r);
            },
            None => {},
        }
        url
    }
}

/// The document id and attachment name a watched file stands for: the last
/// two components of its path, when it has two.
pub fn doc_and_name(components: &Vec<String>) -> (r: Option<(String, String)>)
    ensures
        components@.len() < 2 ==> r is None,
        components@.len() >= 2 ==> (r matches Some(p) && p.0@ == components@[components@.len()
            - 2]@ && p.1@ == components@[components@.len() - 1]@),
{
    let n = components.len();
    if n < 2 {
        return None;
    }
    Some((components[n - 2].clone(), components[n - 1].clone()))
}

/// Settings of the watch loop, as the command line gives them.
pub struct WatchArgs {
    pub couch_url: String,
    pub db: String,
    pub username: Option<String>,
    pub password: Option<String>,
    pub watch_dir: String,
    pub batch_interval_ms: u64,
}

/// What the first pass over the arguments has gathered: URL, database,
/// watched directory, user, password and batch interval.
pub type FirstPass = (Seq<char>, Seq<char>, Seq<char>, Option<Seq<char>>, Option<Seq<char>>, u64);

/// The options of the first pass, each followed by its value.
pub open spec fn first_pass_flag(a: Seq<char>) -> bool {
    a == "--url"@ || a == "--db"@ || a == "--watch"@ || a == "--user"@ || a == "--pass"@ || a
        == "--interval"@
}

/// A decimal `u64` argument, or `otherwise` when it does not read as one.
pub open spec fn u64_or(a: Seq<char>, otherwise: u64) -> u64 {
    match parse_u64_spec(encode_utf8(a)) {
        Some(v) => v,
        None => otherwise,
    }
}

/// A decimal `usize` argument, or `otherwise` when it does not read as one.
pub open spec fn usize_or(a: Seq<char>, otherwise: usize) -> usize {
    match parse_u64_spec(encode_utf8(a)) {
        Some(v) => if v <= usize::MAX {
            v as usize
        } else {
            otherwise
        },
        None => otherwise,
    }
}

/// The first pass over the arguments from position `i` on; `None` when an
/// option that takes a value comes last, where the scan would index past
/// the end.
pub open spec fn first_pass(argv: Seq<Seq<char>>, i: int, st: FirstPass) -> Option<FirstPass>
    decreases argv.len() - i,
{
    if i < 0 || i >= argv.len() {
        Some(st)
    } else if first_pass_flag(argv[i]) {
        if i + 1 >= argv.len() {
            None
        } else {
            let a = argv[i];
            let v = argv[i + 1];
            let next = if a == "--url"@ {
                (v, st.1, st.2, st.3, st.4, st.5)
            } else if a == "--db"@ {
                (st.0, v, st.2, st.3, st.4, st.5)
            } else if a == "--watch"@ {
                (st.0, st.1, v, st.3, st.4, st.5)
            } else if a == "--user"@ {
                (st.0, st.1, st.2, Some(v), st.4, st.5)
            } else if a == "--pass"@ {
                (st.0, st.1, st.2, st.3, Some(v), st.5)
            } else {
                (st.0, st.1, st.2, st.3, st.4, u64_or(v, 2000))
            };
            first_pass(argv, i + 2, next)
        }
    } else {
        first_pass(argv, i + 1, st)
    }
}

/// The second pass from position `i` on, for the concurrency and retry
/// count of the client.
pub open spec fn second_pass(argv: Seq<Seq<char>>, i: int, st: (usize, usize)) -> Option<
    (usize, usize),
>
    decreases argv.len() - i,
{
    if i < 0 || i >= argv.len() {
        Some(st)
    } else if argv[i] == "--concurrency"@ || argv[i] == "--retries"@ {
        if i + 1 >= argv.len() {
            None
        } else {
            let v = argv[i + 1];
            let next = if argv[i] == "--concurrency"@ {
                (usize_or(v, st.0), st.1)
            } else {
                (st.0, usize_or(v, st.1))
            };
            second_pass(argv, i + 2, next)
        }
    } else {
        second_pass(argv, i + 1, st)
    }
}

/// The arguments as text.
pub open spec fn arg_views(argv: Seq<String>) -> Seq<Seq<char>> {
    argv.map_values(|a: String| a@)
}

/// Values before any option is read.
pub open spec fn first_pass_defaults() -> FirstPass {
    ("http://127.0.0.1:5984"@, "mydb"@, "."@, None, None, 2000)
}

fn text_eq(a: &String, lit: &str) -> (r: bool)
    ensures
        r == (a@ == lit@),
{
    let b = String::from_str(lit);
    *a == b
}

fn parse_u64_or(a: &String, otherwise: u64) -> (r: u64)
    ensures
        r == u64_or(a@, otherwise),
{
    match parse_u64_decimal(a.as_str().as_bytes()) {
        Some(v) => v,
        None => otherwise,
    }
}

fn parse_usize_or(a: &String, otherwise: usize) -> (r: usize)
    ensures
        r == usize_or(a@, otherwise),
{
    match parse_u64_decimal(a.as_str().as_bytes()) {
        Some(v) => if v <= usize::MAX as u64 {
            v as usize
        } else {
            otherwise
        },
        None => otherwise,
    }
}

/// The command line `--url URL --db DB --watch DIR [--user USER --pass PASS]
/// [--interval MS] [--concurrency N] [--retries N]`, read in two passes
/// after the program name; unknown words are skipped, and a number that
/// does not read falls back to its default (the interval) or keeps the
/// current value (concurrency and retries).
pub fn parse_args(argv: &Vec<String>) -> (r: (WatchArgs, CouchConfig))
    requires
        first_pass(arg_views(argv@), 1, first_pass_defaults()) is Some,
        second_pass(arg_views(argv@), 1, (4, 5)) is Some,
    ensures
        ({
            let p = first_pass(arg_views(argv@), 1, first_pass_defaults()).unwrap();
            let q = second_pass(arg_views(argv@), 1, (4, 5)).unwrap();
            &&& r.0.couch_url@ == p.0 && r.1.base@ == p.0
            &&& r.0.db@ == p.1 && r.1.db@ == p.1
            &&& r.0.watch_dir@ == p.2
            &&& opt_view(r.0.username) == p.3 && opt_view(r.1.user) == p.3
            &&& opt_view(r.0.password) == p.4 && opt_view(r.1.pass) == p.4
            &&& r.0.batch_interval_ms == p.5
            &&& r.1.concurrency == q.0 && r.1.max_retries == q.1
        }),
{
    let ghost av = arg_views(argv@);
    let mut couch_url = String::from_str("http://127.0.0.1:5984");
    let mut db = String::from_str("mydb");
    let mut watch_dir = String::from_str(".");
    let mut username: Option<String> = None;
    let mut password: Option<String> = None;
    let mut interval: u64 = 2000;
    let mut i: usize = 1;
    while i < argv.len()
        invariant
            av == arg_views(argv@),
            1 <= i,
            first_pass(av, 1, first_pass_defaults()) is Some,
            first_pass(av, 1, first_pass_defaults()) == first_pass(
                av,
                i as int,
                (couch_url@, db@, watch_dir@, opt_view(username), opt_view(password), interval),
            ),
        decreases argv@.len() - i,
    {
        let ghost st = (couch_url@, db@, watch_dir@, opt_view(username), opt_view(password), interval);
        let a = &argv[i];
        proof {
            assert(av[i as int] == a@);
        }
        let is_url = text_eq(a, "--url");
        let is_db = text_eq(a, "--db");
        let is_watch = text_eq(a, "--watch");
        let is_user = text_eq(a, "--user");
        let is_pass = text_eq(a, "--pass");
        let is_interval = text_eq(a, "--interval");
        if is_url || is_db || is_watch || is_user || is_pass || is_interval {
            proof {
                assert(i + 1 < av.len());
                assert(av[i + 1] == argv@[i + 1]@);
            }
            let v = argv[i + 1].clone();
            if is_url {
                couch_url = v;
            } else if is_db {
                db = v;
            } else if is_watch {
                watch_dir = v;
            } else if is_user {
                username = Some(v);
            } else if is_pass {
                password = Some(v);
            } else {
                interval = parse_u64_or(&argv[i + 1], 2000);
            }
            i = i + 2;
        } else {
            i = i + 1;
        }
    }
    let mut concurrency: usize = 4;
    let mut max_retries: usize = 5;
    let mut j: usize = 1;
    while j < argv.len()
        invariant
            av == arg_views(argv@),
            1 <= j,
            second_pass(av, 1, (4, 5)) is Some,
            second_pass(av, 1, (4, 5)) == second_pass(av, j as int, (concurrency, max_retries)),
        decreases argv@.len() - j,
    {
        let a = &argv[j];
        proof {
            assert(av[j as int] == a@);
        }
        let is_conc = text_eq(a, "--concurrency");
        let is_retries = text_eq(a, "--retries");
        if is_conc || is_retries {
            proof {
                assert(j + 1 < av.len());
                assert(av[j + 1] == argv@[j + 1]@);
            }
            if is_conc {
                concurrency = parse_usize_or(&argv[j + 1], concurrency);
            } else {
                max_retries = parse_usize_or(&argv[j + 1], max_retries);
            }
            j = j + 2;
        } else {
            j = j + 1;
        }
    }
    let client = CouchConfig {
        base: couch_url.clone(),
        db: db.clone(),
        user: opt_clone(&username),
        pass: opt_clone(&password),
        concurrency,
        max_retries,
    };
    (
        WatchArgs {
            couch_url,
            db,
            username,
            password,
            watch_dir,
            batch_interval_ms: interval,
        },
        client,
    )
}

/// Positions from `k` on that hold no `--interval` leave the gathered
/// interval as it was.
proof fn lemma_interval_kept(argv: Seq<Seq<char>>, k: int, st: FirstPass)
    requires
        0 <= k,
        forall|j: int| k <= j < argv.len() ==> argv[j] != "--interval"@,
    ensures
        first_pass(argv, k, st) matches Some(r) ==> r.5 == st.5,
    decreases argv.len() - k,
{
    if k < argv.len() {
        if first_pass_flag(argv[k]) {
            if k + 1 < argv.len() {
                let a = argv[k];
                let v = argv[k + 1];
                let next = if a == "--url"@ {
                    (v, st.1, st.2, st.3, st.4, st.5)
                } else if a == "--db"@ {
                    (st.0, v, st.2, st.3, st.4, st.5)
                } else if a == "--watch"@ {
                    (st.0, st.1, v, st.3, st.4, st.5)
                } else if a == "--user"@ {
                    (st.0, st.1, st.2, Some(v), st.4, st.5)
                } else if a == "--pass"@ {
                    (st.0, st.1, st.2, st.3, Some(v), st.5)
                } else {
                    (st.0, st.1, st.2, st.3, st.4, u64_or(v, 2000))
                };
                assert(a != "--interval"@);
                assert(next.5 == st.5);
                lemma_interval_kept(argv, k + 2, next);
            }
        } else {
            lemma_interval_kept(argv, k + 1, st);
        }
    }
}

/// The last `--interval N` read as an option sets the batch interval: when
/// the scan reaches `--interval` at position `i` and no later argument is
/// `--interval`, the interval gathered is N when N reads as a decimal
/// `u64`, and 2000 milliseconds when it does not.
pub proof fn law_interval_last_occurrence(argv: Seq<Seq<char>>, i: int, st: FirstPass)
    requires
        0 <= i,
        i + 1 < argv.len(),
        argv[i] == "--interval"@,
        forall|j: int| i + 2 <= j < argv.len() ==> argv[j] != "--interval"@,
    ensures
        first_pass(argv, i, st) matches Some(r) ==> r.5 == match parse_u64_spec(
            encode_utf8(argv[i + 1]),
        ) {
            Some(n) => n,
            None => 2000u64,
        },
{
    let v = argv[i + 1];
    lemma_options_distinct();
    let next = (st.0, st.1, st.2, st.3, st.4, u64_or(v, 2000));
    assert(first_pass(argv, i, st) == first_pass(argv, i + 2, next));
    lemma_interval_kept(argv, i + 2, next);
}

/// The command line `prog --interval N`, with N a decimal `u64`, sets the
/// batch interval to N.
pub proof fn law_interval_given(argv: Seq<Seq<char>>, n: u64)
    requires
        argv.len() == 3,
        argv[1] == "--interval"@,
        parse_u64_spec(encode_utf8(argv[2])) == Some(n),
    ensures
        first_pass(argv, 1, first_pass_defaults()) matches Some(r) && r.5 == n,
{
    law_interval_last_occurrence(argv, 1, first_pass_defaults());
    let next = (
        first_pass_defaults().0,
        first_pass_defaults().1,
        first_pass_defaults().2,
        first_pass_defaults().3,
        first_pass_defaults().4,
        u64_or(argv[2], 2000),
    );
    lemma_options_distinct();
    assert(first_pass_flag(argv[1]));
    assert(first_pass(argv, 3, next) == Some(next));
    assert(first_pass(argv, 1, first_pass_defaults()) == first_pass(argv, 3, next));
}

/// The options of the first pass that take a text value, by number:
/// `--url`, `--db`, `--watch`, `--user`, `--pass`.
pub open spec fn text_option(w: int) -> Seq<char> {
    if w == 0 {
        "--url"@
    } else if w == 1 {
        "--db"@
    } else if w == 2 {
        "--watch"@
    } else if w == 3 {
        "--user"@
    } else {
        "--pass"@
    }
}

/// The gathered value of text option `w`: URL, database and directory are
/// always set, user and password only once given.
pub open spec fn text_field(st: FirstPass, w: int) -> Option<Seq<char>> {
    if w == 0 {
        Some(st.0)
    } else if w == 1 {
        Some(st.1)
    } else if w == 2 {
        Some(st.2)
    } else if w == 3 {
        st.3
    } else {
        st.4
    }
}

/// The six options of the first pass are different words.
proof fn lemma_options_distinct()
    ensures
        "--url"@ != "--db"@ && "--url"@ != "--watch"@ && "--url"@ != "--user"@ && "--url"@ != "--pass"@,
        "--db"@ != "--watch"@ && "--db"@ != "--user"@ && "--db"@ != "--pass"@,
        "--watch"@ != "--user"@ && "--watch"@ != "--pass"@ && "--user"@ != "--pass"@,
        "--interval"@ != "--url"@ && "--interval"@ != "--db"@ && "--interval"@ != "--watch"@,
        "--interval"@ != "--user"@ && "--interval"@ != "--pass"@,
{
    reveal_strlit("--url");
    reveal_strlit("--db");
    reveal_strlit("--watch");
    reveal_strlit("--user");
    reveal_strlit("--pass");
    reveal_strlit("--interval");
    assert("--url"@.len() == 5 && "--db"@.len() == 4 && "--watch"@.len() == 7);
    assert("--user"@.len() == 6 && "--pass"@.len() == 6 && "--interval"@.len() == 10);
    assert("--user"@[2] != "--pass"@[2]);
}

/// Positions from `k` on that hold no text option `w` leave its gathered
/// value as it was.
proof fn lemma_text_field_kept(argv: Seq<Seq<char>>, k: int, st: FirstPass, w: int)
    requires
        0 <= k,
        0 <= w < 5,
        forall|j: int| k <= j < argv.len() ==> argv[j] != text_option(w),
    ensures
        first_pass(argv, k, st) matches Some(r) ==> text_field(r, w) == text_field(st, w),
    decreases argv.len() - k,
{
    if k < argv.len() {
        if first_pass_flag(argv[k]) {
            if k + 1 < argv.len() {
                let a = argv[k];
                let v = argv[k + 1];
                let next = if a == "--url"@ {
                    (v, st.1, st.2, st.3, st.4, st.5)
                } else if a == "--db"@ {
                    (st.0, v, st.2, st.3, st.4, st.5)
                } else if a == "--watch"@ {
                    (st.0, st.1, v, st.3, st.4, st.5)
                } else if a == "--user"@ {
                    (st.0, st.1, st.2, Some(v), st.4, st.5)
                } else if a == "--pass"@ {
                    (st.0, st.1, st.2, st.3, Some(v), st.5)
                } else {
                    (st.0, st.1, st.2, st.3, st.4, u64_or(v, 2000))
                };
                assert(a != text_option(w));
                assert(text_field(next, w) == text_field(st, w));
                lemma_text_field_kept(argv, k + 2, next, w);
            }
        } else {
            lemma_text_field_kept(argv, k + 1, st, w);
        }
    }
}

/// The last text option read as an option gives its value: when the scan
/// reaches option `w` (`--url`, `--db`, `--watch`, `--user` or `--pass`) at
/// position `i` and no later argument is that option, the value gathered
/// for it is the argument that follows it.
pub proof fn law_text_option_last_occurrence(argv: Seq<Seq<char>>, i: int, st: FirstPass, w: int)
    requires
        0 <= i,
        0 <= w < 5,
        i + 1 < argv.len(),
        argv[i] == text_option(w),
        forall|j: int| i + 2 <= j < argv.len() ==> argv[j] != text_option(w),
    ensures
        first_pass(argv, i, st) matches Some(r) ==> text_field(r, w) == Some(argv[i + 1]),
{
    lemma_options_distinct();
    let a = argv[i];
    let v = argv[i + 1];
    let next = if a == "--url"@ {
        (v, st.1, st.2, st.3, st.4, st.5)
    } else if a == "--db"@ {
        (st.0, v, st.2, st.3, st.4, st.5)
    } else if a == "--watch"@ {
        (st.0, st.1, v, st.3, st.4, st.5)
    } else if a == "--user"@ {
        (st.0, st.1, st.2, Some(v), st.4, st.5)
    } else if a == "--pass"@ {
        (st.0, st.1, st.2, st.3, Some(v), st.5)
    } else {
        (st.0, st.1, st.2, st.3, st.4, u64_or(v, 2000))
    };
    assert(first_pass_flag(a));
    assert(first_pass(argv, i, st) == first_pass(argv, i + 2, next));
    assert(text_field(next, w) == Some(v));
    lemma_text_field_kept(argv, i + 2, next, w);
}

/// Whether the first pass succeeds does not depend on what it gathered.
proof fn lemma_first_pass_some(argv: Seq<Seq<char>>, i: int, a: FirstPass, b: FirstPass)
    ensures
        first_pass(argv, i, a) is Some <==> first_pass(argv, i, b) is Some,
    decreases argv.len() - i,
{
    if 0 <= i < argv.len() {
        if first_pass_flag(argv[i]) {
            if i + 1 < argv.len() {
                let v = argv[i + 1];
                let ai = argv[i];
                let na = if ai == "--url"@ {
                    (v, a.1, a.2, a.3, a.4, a.5)
                } else if ai == "--db"@ {
                    (a.0, v, a.2, a.3, a.4, a.5)
                } else if ai == "--watch"@ {
                    (a.0, a.1, v, a.3, a.4, a.5)
                } else if ai == "--user"@ {
                    (a.0, a.1, a.2, Some(v), a.4, a.5)
                } else if ai == "--pass"@ {
                    (a.0, a.1, a.2, a.3, Some(v), a.5)
                } else {
                    (a.0, a.1, a.2, a.3, a.4, u64_or(v, 2000))
                };
                let nb = if ai == "--url"@ {
                    (v, b.1, b.2, b.3, b.4, b.5)
                } else if ai == "--db"@ {
                    (b.0, v, b.2, b.3, b.4, b.5)
                } else if ai == "--watch"@ {
                    (b.0, b.1, v, b.3, b.4, b.5)
                } else if ai == "--user"@ {
                    (b.0, b.1, b.2, Some(v), b.4, b.5)
                } else if ai == "--pass"@ {
                    (b.0, b.1, b.2, b.3, Some(v), b.5)
                } else {
                    (b.0, b.1, b.2, b.3, b.4, u64_or(v, 2000))
                };
                lemma_first_pass_some(argv, i + 2, na, nb);
            }
        } else {
            lemma_first_pass_some(argv, i + 1, a, b);
        }
    }
}

/// Whether the second pass succeeds does not depend on what it gathered.
proof fn lemma_second_pass_some(argv: Seq<Seq<char>>, i: int, a: (usize, usize), b: (usize, usize))
    ensures
        second_pass(argv, i, a) is Some <==> second_pass(argv, i, b) is Some,
    decreases argv.len() - i,
{
    if 0 <= i < argv.len() {
        if argv[i] == "--concurrency"@ || argv[i] == "--retries"@ {
            if i + 1 < argv.len() {
                let v = argv[i + 1];
                let na = if argv[i] == "--concurrency"@ {
                    (usize_or(v, a.0), a.1)
                } else {
                    (a.0, usize_or(v, a.1))
                };
                let nb = if argv[i] == "--concurrency"@ {
                    (usize_or(v, b.0), b.1)
                } else {
                    (b.0, usize_or(v, b.1))
                };
                lemma_second_pass_some(argv, i + 2, na, nb);
            }
        } else {
            lemma_second_pass_some(argv, i + 1, a, b);
        }
    }
}

/// Whether the command line can be read: no option that takes a value is
/// left without one where a pass expects it.
pub fn args_complete(argv: &Vec<String>) -> (r: bool)
    ensures
        r == (first_pass(arg_views(argv@), 1, first_pass_defaults()) is Some && second_pass(
            arg_views(argv@),
            1,
            (4, 5),
        ) is Some),
{
    let ghost av = arg_views(argv@);
    let ghost d = first_pass_defaults();
    let mut i: usize = 1;
    while i < argv.len()
        invariant
            av == arg_views(argv@),
            1 <= i,
            d == first_pass_defaults(),
            first_pass(av, 1, d) is Some <==> first_pass(av, i as int, d) is Some,
        decreases argv@.len() - i,
    {
        let a = &argv[i];
        proof {
            assert(av[i as int] == a@);
        }
        if text_eq(a, "--url") || text_eq(a, "--db") || text_eq(a, "--watch") || text_eq(a, "--user")
            || text_eq(a, "--pass") || text_eq(a, "--interval") {
            if i + 1 >= argv.len() {
                proof {
                    assert(first_pass_flag(av[i as int]));
                    assert(first_pass(av, i as int, d) is None);
                }
                return false;
            }
            proof {
                let v = av[i + 1];
                let ai = av[i as int];
                let nd = if ai == "--url"@ {
                    (v, d.1, d.2, d.3, d.4, d.5)
                } else if ai == "--db"@ {
                    (d.0, v, d.2, d.3, d.4, d.5)
                } else if ai == "--watch"@ {
                    (d.0, d.1, v, d.3, d.4, d.5)
                } else if ai == "--user"@ {
                    (d.0, d.1, d.2, Some(v), d.4, d.5)
                } else if ai == "--pass"@ {
                    (d.0, d.1, d.2, d.3, Some(v), d.5)
                } else {
                    (d.0, d.1, d.2, d.3, d.4, u64_or(v, 2000))
                };
                lemma_first_pass_some(av, i + 2, nd, d);
            }
            i = i + 2;
        } else {
            i = i + 1;
        }
    }
    let mut j: usize = 1;
    while j < argv.len()
        invariant
            av == arg_views(argv@),
            1 <= j,
            second_pass(av, 1, (4, 5)) is Some <==> second_pass(av, j as int, (4, 5)) is Some,
            d == first_pass_defaults(),
            first_pass(av, 1, d) is Some,
        decreases argv@.len() - j,
    {
        let a = &argv[j];
        proof {
            assert(av[j as int] == a@);
        }
        if text_eq(a, "--concurrency") || text_eq(a, "--retries") {
            if j + 1 >= argv.len() {
                proof {
                    assert(second_pass(av, j as int, (4, 5)) is None);
                }
                return false;
            }
            proof {
                let v = av[j + 1];
                let n = if av[j as int] == "--concurrency"@ {
                    (usize_or(v, 4), 5usize)
                } else {
                    (4usize, usize_or(v, 5))
                };
                lemma_second_pass_some(av, j + 2, n, (4, 5));
            }
            j = j + 2;
        } else {
            j = j + 1;
        }
    }
    true
}

/// An optional text as plain characters.
pub open spec fn opt_view(o: Option<String>) -> Option<Seq<char>> {
    match o {
        Some(s) => Some(s@),
        None => None,
    }
}

fn opt_clone(o: &Option<String>) -> (r: Option<String>)
    ensures
        opt_view(r) == opt_view(*o),
{
    match o {
        Some(s) => Some(s.clone()),
        None => None,
    }
}

} // verus!
