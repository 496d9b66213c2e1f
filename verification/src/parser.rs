//! Parsers for the upstream queue-times pages.
//!
//! The HTML selection itself is an outside call whose results are
//! named; everything from the selected texts on — the alternation of
//! name and status spans, the status grammar `Closed | Open | <n> mins`,
//! and the park catalog assembly — is verified against its
//! specification.

use vstd::prelude::*;

use crate::client::ParkEntry;
use crate::error::ParseError;
use crate::model;
use crate::model::{rides_view, RideTime, RideTimeView};

verus! {

/// ASCII whitespace, as the wait-time token is split on.
pub open spec fn is_ws(c: char) -> bool {
    c == ' ' || c == '\t' || c == '\n' || c == '\u{c}' || c == '\r'
}

/// An ASCII decimal digit.
pub open spec fn is_digit(c: char) -> bool {
    48 <= c as int <= 57
}

/// A non-empty run of decimal digits.
pub open spec fn all_digits(s: Seq<char>) -> bool {
    s.len() > 0 && forall|i: int| 0 <= i < s.len() ==> is_digit(#[trigger] s[i])
}

/// The value of a run of decimal digits.
pub open spec fn digits_val(s: Seq<char>) -> int
    decreases s.len(),
{
    if s.len() == 0 {
        0
    } else {
        digits_val(s.drop_last()) * 10 + (s.last() as int - 48)
    }
}

/// The first ASCII-whitespace position at or after `i`, or the length.
pub open spec fn first_ws(s: Seq<char>, i: int) -> int
    decreases s.len() - i,
{
    if i < 0 || i >= s.len() {
        s.len() as int
    } else if is_ws(s[i]) {
        i
    } else {
        first_ws(s, i + 1)
    }
}

/// The leading token of a status text: its characters up to the first
/// ASCII whitespace.
pub open spec fn token_of(s: Seq<char>) -> Seq<char> {
    s.take(first_ws(s, 0))
}

/// Whether a status text ends in `mins`.
pub open spec fn ends_mins(s: Seq<char>) -> bool {
    s.len() >= 4 && s[s.len() - 4] == 'm' && s[s.len() - 3] == 'i' && s[s.len() - 2] == 'n'
        && s[s.len() - 1] == 's'
}

/// The wait-time token parsed as a signed 16-bit number, taken by
/// absolute value (upstream has been seen to post negative waits).
pub open spec fn spec_parse_wait(token: Seq<char>) -> Option<u16> {
    let neg = token.len() > 0 && token[0] == '-';
    let signed = token.len() > 0 && (token[0] == '+' || token[0] == '-');
    let ds = if signed {
        token.skip(1)
    } else {
        token
    };
    if !all_digits(ds) {
        None
    } else {
        let v = digits_val(ds);
        if v <= 32767 || (neg && v == 32768) {
            Some(v as u16)
        } else {
            None
        }
    }
}

/// The status grammar: `Closed`, `Open`, or a wait time ending in
/// `mins` whose leading token parses as a number of minutes.
pub open spec fn spec_status_of(s: Seq<char>) -> Option<model::RideStatus> {
    if s == "Closed"@ {
        Some(model::RideStatus::Closed)
    } else if s == "Open"@ {
        Some(model::RideStatus::Open)
    } else if ends_mins(s) {
        match spec_parse_wait(token_of(s)) {
            Some(t) => Some(model::RideStatus::Wait(t)),
            None => None,
        }
    } else {
        None
    }
}

/// Whether a span's text reads as a status at all; a name span whose
/// successor does not is a stray tag and is skipped.
pub open spec fn is_status_text(s: Seq<char>) -> bool {
    s == "Closed"@ || s == "Open"@ || ends_mins(s)
}

/// The text carried by a failed wait-time parse: the status text for a
/// bad `mins` time, empty for any other unreadable status.
pub open spec fn wait_err_text(s: Seq<char>) -> Seq<char> {
    if ends_mins(s) {
        s
    } else {
        Seq::empty()
    }
}

/// The ride list parsed from the span texts from position `i` on, with
/// an optionally pending ride name. Spans alternate between a ride's
/// name and its status; a name span whose successor is no status is
/// skipped, and a trailing name with no status is dropped.
pub open spec fn spec_parse_from(
    spans: Seq<(Seq<char>, Seq<char>)>,
    i: int,
    pending: Option<Seq<char>>,
) -> Result<Seq<RideTimeView>, Seq<char>>
    decreases spans.len() - i,
{
    if i < 0 || i >= spans.len() {
        Ok(Seq::empty())
    } else {
        match pending {
            None => {
                if i + 1 < spans.len() && !is_status_text(spans[i + 1].1) {
                    spec_parse_from(spans, i + 1, None)
                } else {
                    spec_parse_from(spans, i + 1, Some(spans[i].0))
                }
            },
            Some(name) => {
                match spec_status_of(spans[i].1) {
                    None => Err(wait_err_text(spans[i].1)),
                    Some(st) => match spec_parse_from(spans, i + 1, None) {
                        Err(e) => Err(e),
                        Ok(rest) => Ok(seq![RideTimeView { name: name, status: st }] + rest),
                    },
                }
            },
        }
    }
}

/// What the ride selector finds in a park page: for each selected
/// span, its first text node and its full text, both trimmed. A
/// function of the page text alone.
pub uninterp spec fn ride_spans_of(html: Seq<char>) -> Seq<(Seq<char>, Seq<char>)>;

/// The texts of one selected span.
pub open spec fn span_view(s: (String, String)) -> (Seq<char>, Seq<char>) {
    (s.0@, s.1@)
}

/// Relies on scraper to select the ride spans
/// (`nav.panel > a > span:not(.has-text-grey)`) of a park page and
/// hand out each span's first text node and full text, trimmed.
#[verifier::external_body]
fn select_ride_spans(html: &str) -> (r: Vec<(String, String)>)
    ensures
        r@.len() == ride_spans_of(html@).len(),
        forall|i: int|
            0 <= i < r@.len() ==> span_view(#[trigger] r@[i]) == ride_spans_of(html@)[i],
{
    let doc = scraper::Html::parse_document(html);
    let sel = scraper::Selector::parse("nav.panel > a > span:not(.has-text-grey)").unwrap();
    doc.select(&sel)
        .map(|s| {
            let first = s.text().next().unwrap_or("").trim().to_owned();
            let full = s.text().collect::<String>().trim().to_owned();
            (first, full)
        })
        .collect()
}

/// ASCII whitespace, as the wait-time token is split on.
fn is_ws_char(c: char) -> (r: bool)
    ensures
        r == is_ws(c),
{
    c == ' ' || c == '\t' || c == '\n' || c == '\u{c}' || c == '\r'
}

/// The position where a status text's leading token ends.
fn token_end(st: &str) -> (r: usize)
    ensures
        r == first_ws(st@, 0),
        r <= st@.len(),
{
    let n = st.unicode_len();
    let mut j: usize = 0;
    while j < n
        invariant
            j <= n,
            n == st@.len(),
            first_ws(st@, 0) == first_ws(st@, j as int),
        decreases n - j,
    {
        if is_ws_char(st.get_char(j)) {
            return j;
        }
        j += 1;
    }
    j
}

/// Parses the wait-time token: an optional sign, then digits, in the
/// signed 16-bit range, by absolute value.
#[verifier::loop_isolation(false)]
fn parse_wait(s: &String) -> (r: Option<u16>)
    ensures
        r == spec_parse_wait(token_of(s@)),
{
    let st = s.as_str();
    let tend = token_end(st);
    let ghost token = token_of(s@);
    let mut k: usize = 0;
    let mut neg = false;
    if tend > 0 {
        let c0 = st.get_char(0);
        if c0 == '+' || c0 == '-' {
            k = 1;
            neg = c0 == '-';
        }
    }
    let ghost ds = if k == 1 {
        token.skip(1)
    } else {
        token
    };
    proof {
        assert(ds =~= s@.subrange(k as int, tend as int));
    }
    if k == tend {
        proof {
            assert(ds.len() == 0);
            assert(!all_digits(ds));
        }
        return None;
    }
    let mut acc: u64 = 0;
    let mut over = false;
    let mut i: usize = k;
    while i < tend
        invariant
            k <= i <= tend,
            tend <= s@.len(),
            st@ == s@,
            forall|m: int| k <= m < i ==> is_digit(#[trigger] s@[m]),
            !over ==> acc == digits_val(s@.subrange(k as int, i as int)) && acc <= 32768,
            over ==> digits_val(s@.subrange(k as int, i as int)) > 32768,
        decreases tend - i,
    {
        let c = st.get_char(i);
        let cv = c as u32;
        if cv < 48 || cv > 57 {
            proof {
                assert(c == s@[i as int]);
                assert(!is_digit(s@[i as int]));
                assert(ds[i - k as int] == s@[i as int]);
                assert(!all_digits(ds));
            }
            return None;
        }
        let ghost before = s@.subrange(k as int, i as int);
        proof {
            assert(s@.subrange(k as int, i as int + 1).drop_last() =~= before);
            assert(s@.subrange(k as int, i as int + 1).last() == s@[i as int]);
        }
        if !over {
            acc = acc * 10 + ((cv - 48) as u64);
            if acc > 32768 {
                over = true;
            }
        } else {
            proof {
                assert(digits_val(s@.subrange(k as int, i as int + 1)) == digits_val(before) * 10
                    + (s@[i as int] as int - 48));
                assert(digits_val(before) * 10 > 32768 * 10) by (nonlinear_arith)
                    requires
                        digits_val(before) > 32768,
                ;
            }
        }
        i += 1;
    }
    proof {
        assert(all_digits(ds));
        assert(digits_val(ds) == digits_val(s@.subrange(k as int, tend as int)));
    }
    if over {
        return None;
    }
    if neg {
        Some(acc as u16)
    } else {
        if acc <= 32767 {
            Some(acc as u16)
        } else {
            None
        }
    }
}

/// Whether a status text ends in `mins`.
fn ends_with_mins(s: &String) -> (r: bool)
    ensures
        r == ends_mins(s@),
{
    let st = s.as_str();
    let n = st.unicode_len();
    if n < 4 {
        return false;
    }
    st.get_char(n - 4) == 'm' && st.get_char(n - 3) == 'i' && st.get_char(n - 2) == 'n'
        && st.get_char(n - 1) == 's'
}

/// Whether a span's text reads as a status at all.
fn is_status_text_exec(s: &String) -> (r: bool)
    ensures
        r == is_status_text(s@),
{
    if *s == "Closed".to_owned() {
        true
    } else if *s == "Open".to_owned() {
        true
    } else {
        ends_with_mins(s)
    }
}

/// Parses one status text against the status grammar; an unreadable
/// text is a wait-time parse fault carrying the text (or nothing, for
/// a text that is no time at all).
fn parse_status(s: &String) -> (r: Result<model::RideStatus, ParseError>)
    ensures
        match r {
            Ok(st) => spec_status_of(s@) == Some(st),
            Err(e) => {
                &&& spec_status_of(s@) is None
                &&& e matches ParseError::WaitTimeParse(t) && t@ == wait_err_text(s@)
            },
        },
{
    if *s == "Closed".to_owned() {
        Ok(model::RideStatus::Closed)
    } else if *s == "Open".to_owned() {
        Ok(model::RideStatus::Open)
    } else if ends_with_mins(s) {
        match parse_wait(s) {
            Some(t) => Ok(model::RideStatus::Wait(t)),
            None => Err(ParseError::WaitTimeParse(s.clone())),
        }
    } else {
        Err(ParseError::WaitTimeParse(String::new()))
    }
}

/// The texts of all selected spans.
pub open spec fn span_views(spans: Seq<(String, String)>) -> Seq<(Seq<char>, Seq<char>)> {
    Seq::new(spans.len(), |i: int| span_view(spans[i]))
}

/// Parses the ride list out of the selected span texts, exactly as
/// [`spec_parse_from`] specifies.
pub fn parse_ride_spans(spans: &Vec<(String, String)>) -> (r: Result<Vec<RideTime>, ParseError>)
    ensures
        match r {
            Ok(v) => spec_parse_from(span_views(spans@), 0, None) == Ok::<_, Seq<char>>(
                rides_view(v@),
            ),
            Err(e) => {
                &&& e matches ParseError::WaitTimeParse(t) && spec_parse_from(
                    span_views(spans@),
                    0,
                    None,
                ) == Err::<Seq<RideTimeView>, _>(t@)
            },
        },
{
    let ghost all = span_views(spans@);
    let mut out: Vec<RideTime> = Vec::new();
    let mut pending: Option<String> = None;
    let mut i: usize = 0;
    while i < spans.len()
        invariant
            i <= spans.len(),
            all == span_views(spans@),
            ({
                let pv = match pending {
                    Some(nm) => Some(nm@),
                    None => None::<Seq<char>>,
                };
                match spec_parse_from(all, i as int, pv) {
                    Ok(rest) => spec_parse_from(all, 0, None) == Ok::<_, Seq<char>>(
                        rides_view(out@) + rest,
                    ),
                    Err(e) => spec_parse_from(all, 0, None) == Err::<Seq<RideTimeView>, _>(e),
                }
            }),
        decreases spans.len() - i,
    {
        let cur = pending;
        pending = None;
        match cur {
            None => {
                let mut skip = false;
                if i + 1 < spans.len() {
                    if !is_status_text_exec(&spans[i + 1].1) {
                        skip = true;
                    }
                }
                if !skip {
                    pending = Some(spans[i].0.clone());
                }
                i += 1;
            },
            Some(name) => {
                match parse_status(&spans[i].1) {
                    Ok(st) => {
                        let ghost out0 = out@;
                        let ghost restv = spec_parse_from(all, i as int + 1, None::<Seq<char>>);
                        out.push(RideTime { name: name, status: st });
                        proof {
                            assert(rides_view(out@) =~= rides_view(out0).push(out@.last()@));
                            if restv is Ok {
                                assert(rides_view(out0).push(out@.last()@) + (restv
                                    ->Ok_0) =~= rides_view(out0) + (seq![
                                    RideTimeView { name: name@, status: st },
                                ] + (restv->Ok_0)));
                            }
                        }
                        i += 1;
                    },
                    Err(e) => {
                        return Err(e);
                    },
                }
            },
        }
    }
    proof {
        assert(rides_view(out@) + Seq::<RideTimeView>::empty() =~= rides_view(out@));
    }
    Ok(out)
}

/// Defines how a park's rides are parsed out of an HTML page.
pub trait ParkParser: Sized {
    /// Builds all components needed for parsing.
    fn new() -> Self;

    /// Parses all rides and their current wait from the passed html
    /// string. Errors if the HTML cannot be properly parsed, but does
    /// not verify that it is valid.
    fn get_ride_times(&self, html: &str) -> Result<Vec<RideTime>, ParseError>;
}

/// Parser that can currently parse all parks' ride pages.
#[derive(Clone, Debug)]
pub struct GenericParkParser {}

/// Parses a park page's ride list: the spans the ride selector finds,
/// run through the verified span parser.
pub fn parse_park_page(html: &str) -> (r: Result<Vec<RideTime>, ParseError>)
    ensures
        match r {
            Ok(v) => spec_parse_from(ride_spans_of(html@), 0, None) == Ok::<_, Seq<char>>(
                rides_view(v@),
            ),
            Err(e) => {
                &&& e matches ParseError::WaitTimeParse(t) && spec_parse_from(
                    ride_spans_of(html@),
                    0,
                    None,
                ) == Err::<Seq<RideTimeView>, _>(t@)
            },
        },
{
    let spans = select_ride_spans(html);
    proof {
        assert(span_views(spans@) =~= ride_spans_of(html@));
    }
    parse_ride_spans(&spans)
}

impl ParkParser for GenericParkParser {
    fn new() -> Self {
        GenericParkParser {  }
    }

    fn get_ride_times(&self, html: &str) -> Result<Vec<RideTime>, ParseError> {
        parse_park_page(html)
    }
}

/// What the park selector finds on the front page: for each selected
/// block, its href attribute (if present) and its first text node,
/// trimmed. A function of the page text alone.
pub uninterp spec fn park_blocks_of(html: Seq<char>) -> Seq<(Option<Seq<char>>, Seq<char>)>;

/// The texts of one selected park block.
pub open spec fn block_view(b: (Option<String>, String)) -> (Option<Seq<char>>, Seq<char>) {
    (
        match b.0 {
            Some(s) => Some(s@),
            None => None,
        },
        b.1@,
    )
}

/// Relies on scraper to select the park blocks (`.panel-block`) of the
/// front page and hand out each block's href attribute and first text
/// node, trimmed.
#[verifier::external_body]
fn select_park_blocks(html: &str) -> (r: Vec<(Option<String>, String)>)
    ensures
        r@.len() == park_blocks_of(html@).len(),
        forall|i: int|
            0 <= i < r@.len() ==> block_view(#[trigger] r@[i]) == park_blocks_of(html@)[i],
{
    let doc = scraper::Html::parse_document(html);
    let sel = scraper::Selector::parse(".panel-block").unwrap();
    doc.select(&sel)
        .map(|p| {
            let link = p.value().attr("href").map(|s| s.to_owned());
            let name = p.text().next().unwrap_or("").trim().to_owned();
            (link, name)
        })
        .collect()
}

/// What url's parse and join make of a front-page href: the absolute
/// URL of that park's rides page, or nothing if the href cannot be
/// joined. A function of the link text alone.
pub uninterp spec fn park_url_of(link: Seq<char>) -> Option<Seq<char>>;

/// Relies on url's `Url::parse` and `Url::join` to build the absolute
/// rides-page URL from a front-page href.
#[verifier::external_body]
fn join_park_url(link: &str) -> (r: Option<String>)
    ensures
        match r {
            Some(u) => park_url_of(link@) == Some(u@),
            None => park_url_of(link@) is None,
        },
{
    let base = url::Url::parse("https://queue-times.com").ok()?;
    let joined = base.join(&(link.to_string() + "/")).ok()?.join("queue_times").ok()?;
    Some(joined.to_string())
}

/// The catalog entries read off the park blocks, in block order: each
/// block's name with its joined rides-page URL. The first block with a
/// missing href, or with an href that cannot be joined, faults the
/// whole page.
pub open spec fn spec_park_entries(blocks: Seq<(Option<Seq<char>>, Seq<char>)>) -> Result<
    Seq<(Seq<char>, Seq<char>)>,
    ParseError,
>
    decreases blocks.len(),
{
    if blocks.len() == 0 {
        Ok(Seq::empty())
    } else {
        match spec_park_entries(blocks.drop_last()) {
            Err(e) => Err(e),
            Ok(s) => match blocks.last().0 {
                None => Err(ParseError::HrefMissing),
                Some(link) => match park_url_of(link) {
                    None => Err(ParseError::BadParkLink),
                    Some(u) => Ok(s.push((blocks.last().1, u))),
                },
            },
        }
    }
}

/// A fault among the first blocks is the fault of the whole page.
proof fn lemma_park_entries_error_prefix(blocks: Seq<(Option<Seq<char>>, Seq<char>)>, j: int)
    requires
        0 <= j <= blocks.len(),
        spec_park_entries(blocks.take(j)) is Err,
    ensures
        spec_park_entries(blocks) == spec_park_entries(blocks.take(j)),
    decreases blocks.len() - j,
{
    if j == blocks.len() {
        assert(blocks.take(j) =~= blocks);
    } else {
        assert(blocks.take(j + 1).drop_last() =~= blocks.take(j));
        lemma_park_entries_error_prefix(blocks, j + 1);
    }
}

/// Parser for the queue-times front page: what the current links to
/// parks are.
#[derive(Clone, Debug)]
pub struct FrontPageParser {}

impl FrontPageParser {
    /// Creates a new parser.
    pub fn new() -> Self {
        FrontPageParser {  }
    }

    /// Builds the park catalog from the front page: one entry per
    /// selected block, name and absolute rides-page URL. Entries come
    /// out in reverse block order, so that a lookup by name (first
    /// match) finds the same entry that a map filled in block order
    /// would keep: the last block with that name wins.
    pub fn get_park_urls(&self, html: &str) -> (r: Result<Vec<ParkEntry>, ParseError>)
        ensures
            match r {
                Ok(v) => match spec_park_entries(park_blocks_of(html@)) {
                    Ok(s) => v@.len() == s.len() && forall|i: int|
                        0 <= i < v@.len() ==> (#[trigger] v@[i]).name@ == s[s.len() - 1 - i].0
                            && v@[i].url@ == s[s.len() - 1 - i].1,
                    Err(_) => false,
                },
                Err(e) => spec_park_entries(park_blocks_of(html@)) == Err::<
                    Seq<(Seq<char>, Seq<char>)>,
                    _,
                >(e),
            },
    {
        let blocks = select_park_blocks(html);
        let ghost bviews = park_blocks_of(html@);
        let mut fwd: Vec<ParkEntry> = Vec::new();
        let mut i: usize = 0;
        while i < blocks.len()
            invariant
                i <= blocks.len(),
                blocks@.len() == bviews.len(),
                forall|n: int|
                    0 <= n < blocks@.len() ==> block_view(#[trigger] blocks@[n]) == bviews[n],
                bviews == park_blocks_of(html@),
                ({
                    match spec_park_entries(bviews.take(i as int)) {
                        Ok(s) => fwd@.len() == s.len() && forall|n: int|
                            0 <= n < fwd@.len() ==> (#[trigger] fwd@[n]).name@ == s[n].0
                                && fwd@[n].url@ == s[n].1,
                        Err(_) => false,
                    }
                }),
            decreases blocks.len() - i,
        {
            let ghost taken = bviews.take(i as int + 1);
            proof {
                assert(taken.drop_last() =~= bviews.take(i as int));
                assert(taken.last() == bviews[i as int]);
            }
            match &blocks[i].0 {
                None => {
                    proof {
                        lemma_park_entries_error_prefix(bviews, i as int + 1);
                    }
                    return Err(ParseError::HrefMissing);
                },
                Some(link) => {
                    match join_park_url(link.as_str()) {
                        None => {
                            proof {
                                lemma_park_entries_error_prefix(bviews, i as int + 1);
                            }
                            return Err(ParseError::BadParkLink);
                        },
                        Some(u) => {
                            fwd.push(ParkEntry { name: blocks[i].1.clone(), url: u });
                        },
                    }
                },
            }
            i += 1;
        }
        proof {
            assert(bviews.take(blocks@.len() as int) =~= bviews);
        }
        let mut out: Vec<ParkEntry> = Vec::new();
        let n = fwd.len();
        let mut j: usize = 0;
        while j < n
            invariant
                j <= n,
                n == fwd@.len(),
                out@.len() == j,
                forall|m: int|
                    0 <= m < j ==> (#[trigger] out@[m]).name@ == fwd@[n - 1 - m].name@ && out@[m].url@
                        == fwd@[n - 1 - m].url@,
            decreases n - j,
        {
            out.push(fwd[n - 1 - j].clone());
            j += 1;
        }
        Ok(out)
    }
}

} // verus!
