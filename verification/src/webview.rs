//! Requests that a webview makes on our behalf. The page hands results back by
//! navigating to an address on a host of our own, whole or in chunks; they
//! collect in a store that the caller polls.

use vstd::prelude::*;

use crate::text::{join2, join3, skip_chars, starts_with, str_eq, str_trim_end_matches};

verus! {

/// The host that results are handed back through.
pub const RESULT_HOST: &'static str = "omniget-api-result.local";

/// What the store begins with while chunks are coming in.
pub const CHUNK_MARK: &'static str = "__CHUNKS__";

/// What the store holds before the message of a failed request.
pub const ERROR_PREFIX: &'static str = "{\"__fetch_error\":\"";

/// What the store holds after the message of a failed request.
pub const ERROR_SUFFIX: &'static str = "\"}";

/// How long a page that was just opened is left alone.
pub const SETTLE_MS: u64 = 15_000;

/// How long an answer is waited for.
pub const TIMEOUT_NANOS: u128 = 180_000_000_000;

/// The time between the first two looks at the store.
pub const FIRST_INTERVAL_MS: u64 = 100;

/// The most time between two looks at the store.
pub const MAX_INTERVAL_MS: u64 = 500;

/// A parsed URL.
#[verifier::external_type_specification]
#[verifier::external_body]
pub struct ExUrl(url::Url);

/// The host that a URL names, if it names one.
pub uninterp spec fn url_host(u: url::Url) -> Option<Seq<char>>;

/// The pairs of keys and values in the query of a URL, decoded and in order.
pub uninterp spec fn url_query(u: url::Url) -> Seq<(Seq<char>, Seq<char>)>;

/// The URL that a text parses into, if it is one.
pub uninterp spec fn parsed_url(text: Seq<char>) -> Option<url::Url>;

/// `url::Url::host_str`: the host of the URL, which depends on nothing else.
#[verifier::external_body]
fn host_of(u: &url::Url) -> (r: Option<String>)
    ensures
        store_view(r) == url_host(*u),
{
    u.host_str().map(|h| h.to_string())
}

/// `url::Url::query_pairs`: the pairs in the URL's query, which depend on
/// nothing else.
#[verifier::external_body]
fn query_of(u: &url::Url) -> (r: Vec<(String, String)>)
    ensures
        pairs_view(r@) == url_query(*u),
{
    u.query_pairs().into_owned().collect()
}

/// `url::Url::parse`: what it makes of a text depends on nothing else.
#[verifier::external_body]
fn parse_url(text: &str) -> (r: Option<url::Url>)
    ensures
        r == parsed_url(text@),
{
    url::Url::parse(text).ok()
}

/// An optional text by its characters.
pub open spec fn store_view(store: Option<String>) -> Option<Seq<char>> {
    match store {
        Some(s) => Some(s@),
        None => None,
    }
}

/// Keys and values by their characters.
pub open spec fn pairs_view(pairs: Seq<(String, String)>) -> Seq<(Seq<char>, Seq<char>)> {
    pairs.map_values(|p: (String, String)| (p.0@, p.1@))
}

/// The value of the first pair with key `key`.
pub open spec fn first_value(pairs: Seq<(Seq<char>, Seq<char>)>, key: Seq<char>) -> Option<Seq<char>>
    decreases pairs.len(),
{
    if pairs.len() == 0 {
        None
    } else if pairs[0].0 == key {
        Some(pairs[0].1)
    } else {
        first_value(pairs.drop_first(), key)
    }
}

/// True when `key` says what kind of result an address hands back.
pub open spec fn is_result_key(key: Seq<char>) -> bool {
    key == "single"@ || key == "chunk"@ || key == "done"@ || key == "error"@
}

/// The first pair whose key says what kind of result is handed back.
pub open spec fn result_pair(pairs: Seq<(Seq<char>, Seq<char>)>) -> Option<(Seq<char>, Seq<char>)>
    decreases pairs.len(),
{
    if pairs.len() == 0 {
        None
    } else if is_result_key(pairs[0].0) {
        Some(pairs[0])
    } else {
        result_pair(pairs.drop_first())
    }
}

/// True when the store is in the middle of a result in chunks.
pub open spec fn receiving(store: Option<Seq<char>>) -> bool {
    store matches Some(s) && CHUNK_MARK@.is_prefix_of(s)
}

/// The store after one more chunk. A store with a whole result is left alone.
pub open spec fn after_chunk(store: Option<Seq<char>>, data: Seq<char>) -> Option<Seq<char>> {
    match store {
        Some(s) => if s.len() == 0 {
            Some(CHUNK_MARK@ + data)
        } else if CHUNK_MARK@.is_prefix_of(s) {
            Some(s + data)
        } else {
            Some(s)
        },
        None => Some(CHUNK_MARK@ + data),
    }
}

/// The store after the last chunk.
pub open spec fn after_done(store: Option<Seq<char>>) -> Option<Seq<char>> {
    match store {
        Some(s) => if CHUNK_MARK@.is_prefix_of(s) {
            Some(s.skip(CHUNK_MARK@.len() as int))
        } else {
            Some(s)
        },
        None => None,
    }
}

/// What the store holds for a request that failed with `message`.
pub open spec fn error_entry(message: Seq<char>) -> Seq<char> {
    ERROR_PREFIX@ + message + ERROR_SUFFIX@
}

/// The store after an address with the query `pairs` was navigated to.
pub open spec fn after_result(
    store: Option<Seq<char>>,
    pairs: Seq<(Seq<char>, Seq<char>)>,
) -> Option<Seq<char>> {
    match result_pair(pairs) {
        None => store,
        Some((key, value)) => if key == "single"@ {
            Some(value)
        } else if key == "chunk"@ {
            match first_value(pairs, "d"@) {
                Some(data) => after_chunk(store, data),
                None => store,
            }
        } else if key == "done"@ {
            after_done(store)
        } else {
            Some(error_entry(value))
        },
    }
}

/// The four result keys and the data key are different words.
proof fn lemma_keys_differ()
    ensures
        "single"@ != "chunk"@,
        "single"@ != "done"@,
        "single"@ != "error"@,
        "chunk"@ != "done"@,
        "chunk"@ != "error"@,
        "done"@ != "error"@,
        !is_result_key("d"@),
{
    reveal_strlit("single");
    reveal_strlit("chunk");
    reveal_strlit("done");
    reveal_strlit("error");
    reveal_strlit("d");
    assert("single"@[0] != "chunk"@[0]);
    assert("single"@[0] != "done"@[0]);
    assert("single"@[0] != "error"@[0]);
    assert("chunk"@[0] != "done"@[0]);
    assert("chunk"@[0] != "error"@[0]);
    assert("done"@[0] != "error"@[0]);
    assert("d"@.len() != "single"@.len());
    assert("d"@.len() != "chunk"@.len());
    assert("d"@.len() != "done"@.len());
    assert("d"@.len() != "error"@.len());
}

/// The value of the first pair with key `key`.
fn find_value(pairs: &Vec<(String, String)>, key: &str) -> (r: Option<String>)
    ensures
        store_view(r) == first_value(pairs_view(pairs@), key@),
{
    let ghost all = pairs_view(pairs@);
    let mut i: usize = 0;
    proof {
        assert(all.skip(0) == all);
    }
    while i < pairs.len()
        invariant
            all == pairs_view(pairs@),
            i <= pairs@.len(),
            first_value(all, key@) == first_value(all.skip(i as int), key@),
        decreases pairs.len() - i,
    {
        proof {
            assert(all.skip(i as int)[0] == all[i as int]);
            assert(all.skip(i as int).drop_first() == all.skip(i + 1));
        }
        if str_eq(pairs[i].0.as_str(), key) {
            return Some(pairs[i].1.clone());
        }
        i += 1;
    }
    None
}

/// Adds a chunk to the store.
fn add_chunk(store: &mut Option<String>, data: &str)
    ensures
        store_view(*final(store)) == after_chunk(store_view(*old(store)), data@),
{
    let current: String = match store.take() {
        Some(s) => s,
        None => String::new(),
    };
    if current.as_str().is_empty() {
        *store = Some(join2(CHUNK_MARK, data));
    } else if starts_with(current.as_str(), CHUNK_MARK) {
        *store = Some(join2(current.as_str(), data));
    } else {
        *store = Some(current);
    }
}

/// Takes the mark off the store, so that what the chunks added up to is left.
fn finish_chunks(store: &mut Option<String>)
    ensures
        store_view(*final(store)) == after_done(store_view(*old(store))),
{
    match store.take() {
        Some(s) => {
            if starts_with(s.as_str(), CHUNK_MARK) {
                *store = Some(skip_chars(s.as_str(), CHUNK_MARK.unicode_len()));
            } else {
                *store = Some(s);
            }
        },
        None => {},
    }
}

/// Takes the result that the query `pairs` of an address hands back.
pub fn handle_result(pairs: &Vec<(String, String)>, store: &mut Option<String>)
    ensures
        store_view(*final(store)) == after_result(store_view(*old(store)), pairs_view(pairs@)),
{
    let ghost all = pairs_view(pairs@);
    let mut i: usize = 0;
    proof {
        lemma_keys_differ();
        assert(all.skip(0) == all);
    }
    while i < pairs.len()
        invariant
            all == pairs_view(pairs@),
            i <= pairs@.len(),
            *store == *old(store),
            "single"@ != "chunk"@,
            "single"@ != "done"@,
            "single"@ != "error"@,
            "chunk"@ != "done"@,
            "chunk"@ != "error"@,
            "done"@ != "error"@,
            result_pair(all) == result_pair(all.skip(i as int)),
        decreases pairs.len() - i,
    {
        proof {
            assert(all.skip(i as int)[0] == all[i as int]);
            assert(all.skip(i as int).drop_first() == all.skip(i + 1));
        }
        let key: &str = pairs[i].0.as_str();
        if str_eq(key, "single") {
            *store = Some(pairs[i].1.clone());
            return ;
        }
        if str_eq(key, "chunk") {
            match find_value(pairs, "d") {
                Some(data) => {
                    add_chunk(store, data.as_str());
                },
                None => {},
            }
            return ;
        }
        if str_eq(key, "done") {
            finish_chunks(store);
            return ;
        }
        if str_eq(key, "error") {
            *store = Some(join3(ERROR_PREFIX, pairs[i].1.as_str(), ERROR_SUFFIX));
            return ;
        }
        i += 1;
    }
}

/// Decides on a navigation of the webview: an address on the result host is
/// taken as a result and not followed, any other is followed.
pub fn on_navigation(url: &url::Url, store: &mut Option<String>) -> (follow: bool)
    ensures
        follow == (url_host(*url) != Some(RESULT_HOST@)),
        store_view(*final(store)) == (if follow {
            store_view(*old(store))
        } else {
            after_result(store_view(*old(store)), url_query(*url))
        }),
{
    match host_of(url) {
        Some(host) => {
            if str_eq(host.as_str(), RESULT_HOST) {
                let pairs: Vec<(String, String)> = query_of(url);
                handle_result(&pairs, store);
                false
            } else {
                true
            }
        },
        None => true,
    }
}

/// How the webview for requests is come by.
pub enum WebviewPlan {
    /// Use the one that is open.
    Reuse,
    /// Open one at this address.
    Create(url::Url),
    /// There is none: the portal's name does not make an address.
    BadPortal,
}

impl WebviewPlan {
    /// How long the webview is left alone before the first request, in
    /// milliseconds: one that was just opened has checks to pass.
    pub fn settle_ms(&self) -> (r: u64)
        ensures
            r == (if *self is Create {
                SETTLE_MS
            } else {
                0
            }),
    {
        match self {
            WebviewPlan::Create(_) => SETTLE_MS,
            _ => 0,
        }
    }
}

/// The address of a portal.
pub open spec fn portal_address(portal_name: Seq<char>) -> Seq<char> {
    "https://"@ + portal_name + ".udemy.com/"@
}

/// Decides how the webview for requests to a portal is come by.
pub fn ensure_api_webview(already_open: bool, portal_name: &str) -> (r: WebviewPlan)
    ensures
        match r {
            WebviewPlan::Reuse => already_open,
            WebviewPlan::Create(url) => !already_open && parsed_url(portal_address(portal_name@))
                == Some(url),
            WebviewPlan::BadPortal => !already_open && parsed_url(portal_address(portal_name@))
                is None,
        },
{
    if already_open {
        return WebviewPlan::Reuse;
    }
    let address: String = join3("https://", portal_name, ".udemy.com/");
    match parse_url(address.as_str()) {
        Some(url) => WebviewPlan::Create(url),
        None => WebviewPlan::BadPortal,
    }
}

/// Begins a request for `url`: what an earlier one left in the store is
/// dropped. Gives the script that makes the page fetch.
pub fn begin_request(store: &mut Option<String>, url: &str) -> (script: String)
    ensures
        *final(store) is None,
        script@ == "window.__omniget_fetch('"@ + url@ + "')"@,
{
    *store = None;
    join3("window.__omniget_fetch('", url, "')")
}

/// Why a request through the webview has no answer.
pub enum WebviewError {
    /// The webview could not be opened; with the reason.
    Create(String),
    /// The script could not be run; with the reason.
    Eval(String),
    /// The page could not fetch; with the page's message.
    Fetch(String),
    /// No answer came in time.
    Timeout,
}

/// The text of a [`WebviewError`].
pub open spec fn error_text(e: WebviewError) -> Seq<char> {
    match e {
        WebviewError::Create(reason) => "Failed to create API webview: "@ + reason@,
        WebviewError::Eval(reason) => "eval failed: "@ + reason@,
        WebviewError::Fetch(message) => "Fetch error: "@ + message@,
        WebviewError::Timeout => "Timeout waiting for API response (180s). The page may be blocked by Cloudflare or the server is slow."@,
    }
}

impl WebviewError {
    /// The error as a text.
    pub fn message(&self) -> (r: String)
        ensures
            r@ == error_text(*self),
    {
        match self {
            WebviewError::Create(reason) => join2(
                "Failed to create API webview: ",
                reason.as_str(),
            ),
            WebviewError::Eval(reason) => join2("eval failed: ", reason.as_str()),
            WebviewError::Fetch(message) => join2("Fetch error: ", message.as_str()),
            WebviewError::Timeout => {
                "Timeout waiting for API response (180s). The page may be blocked by Cloudflare or the server is slow.".to_owned()
            },
        }
    }
}

/// What a look at the store leads to.
pub enum PollAction {
    /// Look again after this many milliseconds.
    Sleep(u64),
    /// The answer.
    Answer(String),
    /// There is none.
    Fail(WebviewError),
}

/// The message of a failed request, where `data` holds one.
pub open spec fn fetch_error(data: Seq<char>) -> Option<Seq<char>> {
    if ERROR_PREFIX@.is_prefix_of(data) {
        Some(
            crate::text::trim_end_matches(data.skip(ERROR_PREFIX@.len() as int), ERROR_SUFFIX@),
        )
    } else {
        None
    }
}

/// The time between looks that follows `interval`.
pub open spec fn next_interval(interval: u64) -> u64 {
    if interval < MAX_INTERVAL_MS {
        if interval * 3 / 2 <= MAX_INTERVAL_MS {
            (interval * 3 / 2) as u64
        } else {
            MAX_INTERVAL_MS
        }
    } else {
        interval
    }
}

/// True when the store is in the middle of a result in chunks.
pub fn still_receiving(store: &Option<String>) -> (r: bool)
    ensures
        r == receiving(store_view(*store)),
{
    match store {
        Some(s) => starts_with(s.as_str(), CHUNK_MARK),
        None => false,
    }
}

/// One look at the store, `elapsed_nanos` after the request was made. While
/// chunks come in, nothing is taken out, the interval stays, and no time runs.
/// Otherwise what is there is taken out; where nothing is, the look is repeated
/// after longer and longer intervals, until time is over.
pub fn webview_get(store: &mut Option<String>, elapsed_nanos: u128, interval: &mut u64) -> (r:
    PollAction)
    ensures
        r matches PollAction::Answer(answer) ==> !CHUNK_MARK@.is_prefix_of(answer@),
        if receiving(store_view(*old(store))) {
            &&& r == PollAction::Sleep(*old(interval))
            &&& *final(store) == *old(store)
            &&& *final(interval) == *old(interval)
        } else {
            &&& *final(store) is None
            &&& match store_view(*old(store)) {
                Some(data) => *final(interval) == *old(interval) && match fetch_error(data) {
                    Some(message) => r matches PollAction::Fail(WebviewError::Fetch(m)) && m@
                        == message,
                    None => r matches PollAction::Answer(answer) && answer@ == data,
                },
                None => if elapsed_nanos > TIMEOUT_NANOS {
                    r == PollAction::Fail(WebviewError::Timeout) && *final(interval) == *old(
                        interval,
                    )
                } else {
                    r == PollAction::Sleep(*old(interval)) && *final(interval) == next_interval(
                        *old(interval),
                    )
                },
            }
        },
{
    if still_receiving(store) {
        return PollAction::Sleep(*interval);
    }
    match store.take() {
        Some(data) => {
            if starts_with(data.as_str(), ERROR_PREFIX) {
                let rest: String = skip_chars(data.as_str(), ERROR_PREFIX.unicode_len());
                let message: String = str_trim_end_matches(rest.as_str(), ERROR_SUFFIX);
                PollAction::Fail(WebviewError::Fetch(message))
            } else {
                PollAction::Answer(data)
            }
        },
        None => {
            if elapsed_nanos > TIMEOUT_NANOS {
                return PollAction::Fail(WebviewError::Timeout);
            }
            let now: u64 = *interval;
            if now < MAX_INTERVAL_MS {
                let longer: u64 = now * 3 / 2;
                *interval = if longer <= MAX_INTERVAL_MS {
                    longer
                } else {
                    MAX_INTERVAL_MS
                };
            }
            PollAction::Sleep(now)
        },
    }
}

/// The query of the address that hands back chunk number `number`.
pub open spec fn chunk_query(number: Seq<char>, data: Seq<char>) -> Seq<(Seq<char>, Seq<char>)> {
    seq![("chunk"@, number), ("d"@, data)]
}

/// The store after the chunks `parts` were handed back to an empty one, with
/// numbers `numbers`.
pub open spec fn after_chunks(numbers: Seq<Seq<char>>, parts: Seq<Seq<char>>) -> Option<Seq<char>>
    decreases parts.len(),
{
    if parts.len() == 0 {
        None
    } else {
        after_result(
            after_chunks(numbers, parts.drop_last()),
            chunk_query(numbers[parts.len() - 1], parts.last()),
        )
    }
}

/// A result in chunks adds up: from the first chunk to the last the store counts
/// as receiving, so that no part of the result is taken for all of it. Once the
/// end is announced, the store holds the chunks in the order in which they
/// came.
pub proof fn law_chunks_add_up(numbers: Seq<Seq<char>>, parts: Seq<Seq<char>>, end: Seq<char>)
    requires
        parts.len() >= 1,
    ensures
        forall|n: int|
            1 <= n <= parts.len() ==> receiving(
                #[trigger] after_chunks(numbers, parts.take(n)),
            ),
        after_result(after_chunks(numbers, parts), seq![("done"@, end)]) == Some(parts.flatten()),
{
    lemma_keys_differ();
    assert forall|n: int| 1 <= n <= parts.len() implies receiving(
        #[trigger] after_chunks(numbers, parts.take(n)),
    ) by {
        lemma_chunks_so_far(numbers, parts.take(n));
        let some = CHUNK_MARK@ + parts.take(n).flatten();
        assert(some.take(CHUNK_MARK@.len() as int) =~= CHUNK_MARK@);
    }
    lemma_chunks_so_far(numbers, parts);
    let all = CHUNK_MARK@ + parts.flatten();
    assert(all.skip(CHUNK_MARK@.len() as int) =~= parts.flatten());
    assert(CHUNK_MARK@.is_prefix_of(all)) by {
        assert(all.take(CHUNK_MARK@.len() as int) =~= CHUNK_MARK@);
    }
    let query = seq![("done"@, end)];
    assert(result_pair(query) == Some(query[0]));
}

proof fn lemma_chunks_so_far(numbers: Seq<Seq<char>>, parts: Seq<Seq<char>>)
    requires
        parts.len() >= 1,
    ensures
        after_chunks(numbers, parts) == Some(CHUNK_MARK@ + parts.flatten()),
    decreases parts.len(),
{
    lemma_keys_differ();
    let rest = parts.drop_last();
    let query = chunk_query(numbers[parts.len() - 1], parts.last());
    assert(result_pair(query) == Some(query[0]));
    assert(first_value(query, "d"@) == Some(parts.last())) by {
        let tail = query.drop_first();
        assert(tail[0] == query[1]);
        assert("d"@ != "chunk"@);
        assert(first_value(tail, "d"@) == Some(tail[0].1));
    }
    rest.lemma_flatten_push(parts.last());
    assert(rest.push(parts.last()) =~= parts);
    if parts.len() == 1 {
        assert(rest.flatten() =~= Seq::<char>::empty());
        assert(parts.flatten() =~= parts.last());
    } else {
        lemma_chunks_so_far(numbers, rest);
        let s = CHUNK_MARK@ + rest.flatten();
        assert(s.take(CHUNK_MARK@.len() as int) =~= CHUNK_MARK@);
        reveal_strlit("__CHUNKS__");
        assert(s.len() > 0);
        assert(s + parts.last() =~= CHUNK_MARK@ + parts.flatten());
    }
}

/// A result in one piece is the answer, unless it begins like a store that is
/// receiving or like a failure.
pub proof fn law_single_is_answered(store: Option<Seq<char>>, text: Seq<char>)
    requires
        !CHUNK_MARK@.is_prefix_of(text),
        !ERROR_PREFIX@.is_prefix_of(text),
    ensures
        after_result(store, seq![("single"@, text)]) == Some(text),
        !receiving(Some(text)),
        fetch_error(text) is None,
{
    let query = seq![("single"@, text)];
    assert(result_pair(query) == Some(query[0]));
}

/// A failure is reported with the page's message, unless that ends like the
/// store's own entry for it.
pub proof fn law_error_is_reported(store: Option<Seq<char>>, message: Seq<char>)
    requires
        !ERROR_SUFFIX@.is_suffix_of(message),
    ensures
        after_result(store, seq![("error"@, message)]) == Some(error_entry(message)),
        !receiving(Some(error_entry(message))),
        fetch_error(error_entry(message)) == Some(message),
{
    lemma_keys_differ();
    let query = seq![("error"@, message)];
    assert(result_pair(query) == Some(query[0]));
    let entry = error_entry(message);
    let n = ERROR_PREFIX@.len() as int;
    assert(entry.take(n) =~= ERROR_PREFIX@);
    let rest = entry.skip(n);
    assert(rest =~= message + ERROR_SUFFIX@);
    reveal_strlit("\"}");
    reveal_strlit("{\"__fetch_error\":\"");
    reveal_strlit("__CHUNKS__");
    assert(rest.skip(message.len() as int) =~= ERROR_SUFFIX@);
    assert(rest.take(message.len() as int) =~= message);
    assert(ERROR_SUFFIX@.is_suffix_of(rest));
    assert(rest.take(rest.len() - ERROR_SUFFIX@.len()) =~= message);
    assert(crate::text::trim_end_matches(message, ERROR_SUFFIX@) == message);
    assert(entry[0] == '{');
    if CHUNK_MARK@.is_prefix_of(entry) {
        assert(entry.take(CHUNK_MARK@.len() as int)[0] == '_');
    }
}

/// The time between looks never shrinks, and never grows beyond its limit.
pub proof fn law_interval_is_bounded(interval: u64)
    requires
        interval <= MAX_INTERVAL_MS,
    ensures
        interval <= next_interval(interval) <= MAX_INTERVAL_MS,
{
}

/// A portal's address is `https://`, the portal's name, all of it, and
/// `.udemy.com/`.
pub proof fn law_portal_address(portal: Seq<char>)
    ensures
        ({
            let address = portal_address(portal);
            let n = portal.len() as int;
            &&& address.len() == n + 19
            &&& address.take(8) == "https://"@
            &&& address.subrange(8, 8 + n) == portal
            &&& address.skip(8 + n) == ".udemy.com/"@
        }),
{
    reveal_strlit("https://");
    reveal_strlit(".udemy.com/");
    let address = portal_address(portal);
    let n = portal.len() as int;
    assert(address.take(8) =~= "https://"@);
    assert(address.subrange(8, 8 + n) =~= portal);
    assert(address.skip(8 + n) =~= ".udemy.com/"@);
}

/// Different portals have different addresses.
pub proof fn law_portals_differ(a: Seq<char>, b: Seq<char>)
    requires
        portal_address(a) == portal_address(b),
    ensures
        a == b,
{
    law_portal_address(a);
    law_portal_address(b);
}

/// The reason of a failure is reported in full.
pub proof fn law_error_text(e: WebviewError)
    ensures
        match e {
            WebviewError::Create(reason) => {
                let n = "Failed to create API webview: "@.len() as int;
                error_text(e).take(n) == "Failed to create API webview: "@ && error_text(e).skip(n)
                    == reason@
            },
            WebviewError::Eval(reason) => {
                let n = "eval failed: "@.len() as int;
                error_text(e).take(n) == "eval failed: "@ && error_text(e).skip(n) == reason@
            },
            WebviewError::Fetch(message) => {
                let n = "Fetch error: "@.len() as int;
                error_text(e).take(n) == "Fetch error: "@ && error_text(e).skip(n) == message@
            },
            WebviewError::Timeout => true,
        },
{
    match e {
        WebviewError::Create(reason) => {
            crate::text::lemma_joined("Failed to create API webview: "@, reason@);
        },
        WebviewError::Eval(reason) => {
            crate::text::lemma_joined("eval failed: "@, reason@);
        },
        WebviewError::Fetch(message) => {
            crate::text::lemma_joined("Fetch error: "@, message@);
        },
        WebviewError::Timeout => {},
    }
}

/// Texts and pairs are seen character for character.
pub proof fn law_views(store: Option<String>, pairs: Seq<(String, String)>, i: int)
    ensures
        store_view(store) is Some <==> store is Some,
        store matches Some(s) ==> store_view(store) == Some(s@),
        pairs_view(pairs).len() == pairs.len(),
        0 <= i < pairs.len() ==> pairs_view(pairs)[i] == (pairs[i].0@, pairs[i].1@),
{
}

/// True when none of `pairs` has one of the four keys that hand something back.
pub open spec fn without_results(pairs: Seq<(Seq<char>, Seq<char>)>) -> bool {
    forall|i: int|
        0 <= i < pairs.len() ==> (#[trigger] pairs[i]).0 != "single"@ && pairs[i].0 != "chunk"@
            && pairs[i].0 != "done"@ && pairs[i].0 != "error"@
}

/// The value that is found is that of the first pair with the key, wherever it
/// stands, and none is found where no pair has it.
pub proof fn law_first_value(
    before: Seq<(Seq<char>, Seq<char>)>,
    key: Seq<char>,
    value: Seq<char>,
    rest: Seq<(Seq<char>, Seq<char>)>,
)
    requires
        forall|i: int| 0 <= i < before.len() ==> (#[trigger] before[i]).0 != key,
    ensures
        first_value(before, key) is None,
        first_value(before + seq![(key, value)] + rest, key) == Some(value),
    decreases before.len(),
{
    let all = before + seq![(key, value)] + rest;
    if before.len() == 0 {
        assert(all[0] == (key, value));
    } else {
        let fewer = before.drop_first();
        assert forall|i: int| 0 <= i < fewer.len() implies (#[trigger] fewer[i]).0 != key by {
            assert(fewer[i] == before[i + 1]);
        }
        law_first_value(fewer, key, value, rest);
        assert(all[0] == before[0]);
        assert(all.drop_first() =~= fewer + seq![(key, value)] + rest);
    }
}

proof fn lemma_result_pair_behind(
    before: Seq<(Seq<char>, Seq<char>)>,
    rest: Seq<(Seq<char>, Seq<char>)>,
)
    requires
        without_results(before),
    ensures
        result_pair(before + rest) == result_pair(rest),
    decreases before.len(),
{
    if before.len() == 0 {
        assert(before + rest =~= rest);
    } else {
        let fewer = before.drop_first();
        assert forall|i: int| 0 <= i < fewer.len() implies (#[trigger] fewer[i]).0 != "single"@
            && fewer[i].0 != "chunk"@ && fewer[i].0 != "done"@ && fewer[i].0 != "error"@ by {
            assert(fewer[i] == before[i + 1]);
        }
        lemma_result_pair_behind(fewer, rest);
        assert((before + rest)[0] == before[0]);
        assert((before + rest).drop_first() =~= fewer + rest);
    }
}

/// An address that hands nothing back changes nothing.
pub proof fn law_no_result(store: Option<Seq<char>>, pairs: Seq<(Seq<char>, Seq<char>)>)
    requires
        without_results(pairs),
    ensures
        after_result(store, pairs) == store,
{
    lemma_result_pair_behind(pairs, Seq::empty());
    assert(pairs + Seq::<(Seq<char>, Seq<char>)>::empty() =~= pairs);
}

/// The first of the four keys decides, whatever stands before and behind it: a
/// whole result is stored as it is, a failure in its entry, and a chunk or the
/// end goes to what is being received.
pub proof fn law_first_result_decides(
    store: Option<Seq<char>>,
    before: Seq<(Seq<char>, Seq<char>)>,
    key: Seq<char>,
    value: Seq<char>,
    rest: Seq<(Seq<char>, Seq<char>)>,
)
    requires
        without_results(before),
    ensures
        ({
            let pairs = before + seq![(key, value)] + rest;
            let after = after_result(store, pairs);
            &&& key == "single"@ ==> after == Some(value)
            &&& key == "error"@ ==> (after matches Some(entry) && {
                &&& entry.len() == 18 + value.len() + 2
                &&& entry.take(18) == "{\"__fetch_error\":\""@
                &&& entry.subrange(18, 18 + value.len() as int) == value
                &&& entry.skip(18 + value.len() as int) == "\"}"@
            })
            &&& key == "done"@ ==> after == after_done(store)
            &&& key == "chunk"@ ==> match first_value(pairs, "d"@) {
                Some(data) => after == after_chunk(store, data),
                None => after == store,
            }
        }),
{
    lemma_keys_differ();
    let tail = seq![(key, value)] + rest;
    lemma_result_pair_behind(before, tail);
    assert(before + seq![(key, value)] + rest =~= before + tail);
    assert(tail[0] == (key, value));
    reveal_strlit("{\"__fetch_error\":\"");
    reveal_strlit("\"}");
    let entry = error_entry(value);
    assert(entry.take(18) =~= "{\"__fetch_error\":\""@);
    assert(entry.subrange(18, 18 + value.len() as int) =~= value);
    assert(entry.skip(18 + value.len() as int) =~= "\"}"@);
}

/// What a chunk does to the store: it begins a result where there was nothing, is
/// added behind what came before, and leaves a whole result alone. The end of the
/// chunks takes the mark off, and only that.
pub proof fn law_chunks_in_store(so_far: Seq<char>, data: Seq<char>, whole: Seq<char>)
    requires
        whole.len() > 0,
        !receiving(Some(whole)),
    ensures
        after_chunk(None, data) == Some("__CHUNKS__"@ + data),
        after_chunk(Some(Seq::empty()), data) == Some("__CHUNKS__"@ + data),
        after_chunk(Some("__CHUNKS__"@ + so_far), data) == Some("__CHUNKS__"@ + so_far + data),
        after_chunk(Some(whole), data) == Some(whole),
        after_done(Some("__CHUNKS__"@ + so_far)) == Some(so_far),
        after_done(Some(whole)) == Some(whole),
        after_done(Some(Seq::empty())) == Some(Seq::<char>::empty()),
        after_done(None) is None,
        receiving(Some("__CHUNKS__"@ + so_far)),
        !receiving(None),
{
    reveal_strlit("__CHUNKS__");
    crate::text::lemma_joined("__CHUNKS__"@, so_far);
    assert(("__CHUNKS__"@ + so_far).len() >= 10);
}

/// What counts as receiving is exactly what begins with the mark.
pub proof fn law_receiving(s: Seq<char>)
    ensures
        receiving(Some(s)) <==> s.len() >= 10 && s.take(10) == "__CHUNKS__"@,
{
    reveal_strlit("__CHUNKS__");
}

/// A failure is reported with its message, however often the end of its entry is
/// repeated; what does not begin like an entry is no failure.
pub proof fn law_fetch_error(message: Seq<char>, count: nat, other: Seq<char>)
    requires
        !"\"}"@.is_suffix_of(message),
        !"{\"__fetch_error\":\""@.is_prefix_of(other),
    ensures
        fetch_error(
            "{\"__fetch_error\":\""@ + (message + crate::text::repeated("\"}"@, count)),
        ) == Some(message),
        fetch_error(other) is None,
{
    reveal_strlit("\"}");
    let rest = message + crate::text::repeated("\"}"@, count);
    crate::text::lemma_joined("{\"__fetch_error\":\""@, rest);
    crate::text::law_trim_end_finds(message, "\"}"@, count);
}

/// The time between looks grows by half, rounded down, up to 500 milliseconds; a
/// longer one stays.
pub proof fn law_next_interval(interval: u64)
    ensures
        interval >= 500 ==> next_interval(interval) == interval,
        interval < 500 ==> {
            let next = next_interval(interval);
            &&& next <= 500
            &&& 2 * next <= 3 * interval
            &&& next == 500 || 3 * interval < 2 * (next + 1)
        },
{
}

} // verus!
