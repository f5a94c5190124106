//! Bug reports: what is accepted, from whom and how often, and what is passed on.

use crate::text::{
    at_most, chars_of, clip, is_control, is_control_char, text_of, trim, trimmed, uppercase,
};
use vstd::prelude::*;
use vstd::string::StringExecFns;

verus! {

/// The fewest characters of a report.
pub const MIN_LEN: usize = 8;

/// The most characters of a report.
pub const MAX_LEN: usize = 1000;

/// How long an address waits between two reports, in nanoseconds.
pub const COOLDOWN_NS: u128 = 60_000_000_000;

/// How long an address is remembered, in nanoseconds.
pub const RETENTION_NS: u128 = 3_600_000_000_000;

/// The most characters of the text that is passed on.
pub const FULL_LEN: usize = 1024;

/// A report as a client sends it.
#[derive(Clone, Debug)]
pub struct ReportRequest {
    pub message: String,
    pub name: String,
    pub code: String,
    pub phase: String,
    pub url: String,
}

/// The headers of a request that matter to a report, as raw bytes.
#[derive(Clone, Debug)]
pub struct ReportHeaders {
    pub cf_connecting_ip: Option<Vec<u8>>,
    pub x_real_ip: Option<Vec<u8>>,
    pub user_agent: Option<Vec<u8>>,
}

// ---------------------------------------------------------------------------
// The message
// ---------------------------------------------------------------------------

/// A character that a report keeps: line breaks, tabs and whatever is no control character.
pub open spec fn is_report_char(c: char) -> bool {
    c == '\n' || c == '\t' || !is_control_char(c)
}

pub open spec fn report_char() -> spec_fn(char) -> bool {
    |c: char| is_report_char(c)
}

/// The text of a report without stray control characters and outer white space.
pub open spec fn cleaned(raw: Seq<char>) -> Seq<char> {
    trimmed(raw.filter(report_char()))
}

/// Why a report is turned down, if it is.
pub open spec fn message_refusal(raw: Seq<char>) -> Option<Seq<char>> {
    if cleaned(raw).len() < MIN_LEN {
        Some("Say a bit more — at least a short sentence."@)
    } else if cleaned(raw).len() > MAX_LEN {
        Some("Keep it under 1,000 characters."@)
    } else {
        None
    }
}

/// Cleans the text of a report, or says why it is turned down.
pub fn sanitize_message(raw: &str) -> (res: Result<String, &'static str>)
    ensures
        match res {
            Ok(message) => message_refusal(raw@) is None && message@ == cleaned(raw@),
            Err(words) => message_refusal(raw@) == Some(words@),
        },
{
    let chars = chars_of(raw);
    let mut kept: Vec<char> = Vec::new();
    let mut i: usize = 0;
    proof {
        reveal(Seq::filter);
        assert(chars@.take(0) =~= Seq::<char>::empty());
    }
    while i < chars.len()
        invariant
            i <= chars@.len(),
            kept@ == chars@.take(i as int).filter(report_char()),
        decreases chars@.len() - i,
    {
        let c = chars[i];
        proof {
            reveal(Seq::filter);
            assert(chars@.take(i + 1).drop_last() =~= chars@.take(i as int));
        }
        if c == '\n' || c == '\t' || !is_control(c) {
            kept.push(c);
        }
        i += 1;
    }
    assert(chars@.take(i as int) =~= chars@);
    let whole = text_of(&kept, 0, kept.len());
    assert(whole@ =~= kept@);
    let message = trim(whole.as_str());
    let len: usize = chars_of(message.as_str()).len();
    if len < MIN_LEN {
        return Err("Say a bit more — at least a short sentence.");
    }
    if len > MAX_LEN {
        return Err("Keep it under 1,000 characters.");
    }
    Ok(message)
}

// ---------------------------------------------------------------------------
// The sender
// ---------------------------------------------------------------------------

/// A byte that a header may show as text: a visible character, a space or a tab.
pub open spec fn is_header_byte(b: u8) -> bool {
    32 <= b < 127 || b == 9
}

/// The text of a header value, if all of it can be shown as text.
pub open spec fn header_text(value: Seq<u8>) -> Option<Seq<char>> {
    if forall|i: int| 0 <= i < value.len() ==> is_header_byte(#[trigger] value[i]) {
        Some(value.map_values(|b: u8| b as char))
    } else {
        None
    }
}

/// The part of a text before its first comma.
pub open spec fn before_comma(s: Seq<char>) -> Seq<char>
    decreases s.len(),
{
    if s.len() == 0 || s.first() == ',' {
        seq![]
    } else {
        seq![s.first()] + before_comma(s.drop_first())
    }
}

/// The address that a request comes from: the first one of the proxy's header, where that can be
/// read and names one, else the peer's own.
pub open spec fn sender(
    cf_connecting_ip: Option<Seq<u8>>,
    x_real_ip: Option<Seq<u8>>,
    peer: Seq<char>,
) -> Seq<char> {
    let named = match cf_connecting_ip {
        Some(value) => header_text(value),
        None => match x_real_ip {
            Some(value) => header_text(value),
            None => None,
        },
    };
    match named {
        Some(text) => if trimmed(before_comma(text)).len() > 0 {
            trimmed(before_comma(text))
        } else {
            peer
        },
        None => peer,
    }
}

/// The bytes of a header, if it is there.
pub open spec fn opt_bytes(value: Option<Vec<u8>>) -> Option<Seq<u8>> {
    match value {
        Some(bytes) => Some(bytes@),
        None => None,
    }
}

/// Reads a header value as text.
pub fn read_header(value: &Vec<u8>) -> (res: Option<String>)
    ensures
        match res {
            Some(text) => header_text(value@) == Some(text@),
            None => header_text(value@) is None,
        },
{
    let mut text = String::new();
    let mut i: usize = 0;
    while i < value.len()
        invariant
            i <= value@.len(),
            forall|j: int| 0 <= j < i ==> is_header_byte(#[trigger] value@[j]),
            text@ == value@.take(i as int).map_values(|b: u8| b as char),
        decreases value@.len() - i,
    {
        let b: u8 = value[i];
        if !((b >= 32 && b < 127) || b == 9) {
            assert(!is_header_byte(value@[i as int]));
            return None;
        }
        text.push(b as char);
        i += 1;
        assert(text@ =~= value@.take(i as int).map_values(|b: u8| b as char));
    }
    assert(value@.take(i as int) =~= value@);
    Some(text)
}

fn first_part(s: &str) -> (res: String)
    ensures
        res@ == before_comma(s@),
{
    let chars = chars_of(s);
    let mut i: usize = 0;
    assert(chars@.subrange(0, 0) + before_comma(chars@.skip(0)) =~= before_comma(chars@)) by {
        assert(chars@.skip(0) =~= chars@);
    }
    while i < chars.len() && chars[i] != ','
        invariant
            i <= chars@.len(),
            chars@ == s@,
            chars@.subrange(0, i as int) + before_comma(chars@.skip(i as int)) == before_comma(s@),
        decreases chars@.len() - i,
    {
        proof {
            assert(chars@.skip(i as int).drop_first() =~= chars@.skip(i + 1));
            assert(chars@.subrange(0, i + 1) =~= chars@.subrange(0, i as int) + seq![
                chars@[i as int],
            ]);
            assert(chars@.subrange(0, i + 1) + before_comma(chars@.skip(i + 1)) =~= chars@.subrange(
                0,
                i as int,
            ) + before_comma(chars@.skip(i as int)));
        }
        i += 1;
    }
    assert(before_comma(chars@.skip(i as int)) =~= seq![]);
    assert(chars@.subrange(0, i as int) =~= before_comma(s@));
    text_of(&chars, 0, i)
}

/// Tells the address that a request comes from.
pub fn client_ip(headers: &ReportHeaders, peer: &str) -> (res: String)
    ensures
        res@ == sender(opt_bytes(headers.cf_connecting_ip), opt_bytes(headers.x_real_ip), peer@),
{
    let named = match &headers.cf_connecting_ip {
        Some(value) => read_header(value),
        None => match &headers.x_real_ip {
            Some(value) => read_header(value),
            None => None,
        },
    };
    match named {
        Some(text) => {
            let ip = trim(first_part(text.as_str()).as_str());
            if chars_of(ip.as_str()).len() > 0 {
                ip
            } else {
                String::from_str(peer)
            }
        },
        None => String::from_str(peer),
    }
}

// ---------------------------------------------------------------------------
// How often
// ---------------------------------------------------------------------------

/// When each address has last sent a report. No address is entered twice: `distinct_senders` holds
/// of a new one, and every attempt keeps it.
#[derive(Clone, Debug)]
pub struct Limiter {
    pub seen: Vec<(String, u128)>,
}

impl View for Limiter {
    type V = Seq<(Seq<char>, u128)>;

    open spec fn view(&self) -> Seq<(Seq<char>, u128)> {
        Seq::new(self.seen@.len(), |i: int| (self.seen@[i].0@, self.seen@[i].1))
    }
}

/// The time from `then` to `now`, or none where `then` lies ahead.
pub open spec fn age(then: u128, now: u128) -> int {
    if now >= then {
        now - then
    } else {
        0
    }
}

pub open spec fn remembered(now: u128) -> spec_fn((Seq<char>, u128)) -> bool {
    |e: (Seq<char>, u128)| age(e.1, now) < RETENTION_NS
}

pub open spec fn from_elsewhere(ip: Seq<char>) -> spec_fn((Seq<char>, u128)) -> bool {
    |e: (Seq<char>, u128)| e.0 != ip
}

/// The address has sent a report too short a time ago.
pub open spec fn cooling(seen: Seq<(Seq<char>, u128)>, ip: Seq<char>, now: u128) -> bool {
    exists|i: int|
        0 <= i < seen.len() && (#[trigger] seen[i]).0 == ip && age(seen[i].1, now) < COOLDOWN_NS
}

/// What is remembered after an attempt: an accepted one renews the time of its address.
pub open spec fn after_attempt(seen: Seq<(Seq<char>, u128)>, ip: Seq<char>, now: u128) -> Seq<
    (Seq<char>, u128),
> {
    let kept = seen.filter(remembered(now));
    if cooling(seen, ip, now) {
        kept
    } else {
        kept.filter(from_elsewhere(ip)).push((ip, now))
    }
}

/// No address is entered twice.
pub open spec fn distinct_senders(seen: Seq<(Seq<char>, u128)>) -> bool {
    forall|i: int, j: int|
        0 <= i < j < seen.len() ==> (#[trigger] seen[i]).0 != (#[trigger] seen[j]).0
}

/// Dropping entries leaves none twice.
proof fn lemma_filter_senders(
    seen: Seq<(Seq<char>, u128)>,
    pred: spec_fn((Seq<char>, u128)) -> bool,
)
    ensures
        forall|k: int|
            0 <= k < seen.filter(pred).len() ==> pred(#[trigger] seen.filter(pred)[k])
                && seen.contains(seen.filter(pred)[k]),
        distinct_senders(seen) ==> distinct_senders(seen.filter(pred)),
    decreases seen.len(),
{
    reveal(Seq::filter);
    if seen.len() > 0 {
        let head = seen.drop_last();
        let last = seen.last();
        let kept = head.filter(pred);
        let after = seen.filter(pred);
        lemma_filter_senders(head, pred);
        assert(seen[seen.len() - 1] == last);
        assert forall|k: int| 0 <= k < after.len() implies pred(#[trigger] after[k])
            && seen.contains(after[k]) by {
            if k < kept.len() {
                assert(pred(kept[k]) && head.contains(kept[k]));
                let j = choose|j: int| 0 <= j < head.len() && head[j] == kept[k];
                assert(seen[j] == after[k]);
            }
        }
        if distinct_senders(seen) {
            assert(distinct_senders(head));
            assert forall|i: int, j: int| 0 <= i < j < after.len() implies (#[trigger] after[i]).0
                != (#[trigger] after[j]).0 by {
                assert(after[i] == kept[i]);
                if j < kept.len() {
                    assert(after[j] == kept[j]);
                } else {
                    assert(head.contains(kept[i]));
                    let n = choose|n: int| 0 <= n < head.len() && head[n] == kept[i];
                    assert(seen[n].0 != seen[seen.len() - 1].0);
                }
            }
        }
    }
}

/// An attempt enters no address twice.
proof fn lemma_attempt_distinct(seen: Seq<(Seq<char>, u128)>, ip: Seq<char>, now: u128)
    ensures
        distinct_senders(seen) ==> distinct_senders(after_attempt(seen, ip, now)),
{
    let kept = seen.filter(remembered(now));
    lemma_filter_senders(seen, remembered(now));
    lemma_filter_senders(kept, from_elsewhere(ip));
    if !cooling(seen, ip, now) && distinct_senders(seen) {
        let others = kept.filter(from_elsewhere(ip));
        let after = others.push((ip, now));
        assert forall|i: int, j: int| 0 <= i < j < after.len() implies (#[trigger] after[i]).0 != (
        #[trigger] after[j]).0 by {
            assert(after[i] == others[i]);
            assert(from_elsewhere(ip)(others[i]));
            if j < others.len() {
                assert(after[j] == others[j]);
            }
        }
    }
}

impl Limiter {
    /// Nobody has sent a report.
    pub fn new() -> (res: Limiter)
        ensures
            res@ == Seq::<(Seq<char>, u128)>::empty(),
            distinct_senders(res@),
    {
        let res = Limiter { seen: Vec::new() };
        assert(res@ =~= Seq::<(Seq<char>, u128)>::empty());
        res
    }

    /// Tells whether an address may send a report now, and notes it where it may. Times are
    /// nanoseconds on a clock that does not go back.
    pub fn allow(&mut self, ip: &str, now: u128) -> (res: bool)
        ensures
            res == !cooling(old(self)@, ip@, now),
            final(self)@ == after_attempt(old(self)@, ip@, now),
            distinct_senders(old(self)@) ==> distinct_senders(final(self)@),
    {
        proof {
            lemma_attempt_distinct(self@, ip@, now);
        }
        let wanted = String::from_str(ip);
        let ghost before = self@;
        let mut kept = Limiter::new();
        let mut others = Limiter::new();
        let mut blocked = false;
        let mut i: usize = 0;
        proof {
            reveal(Seq::filter);
            assert(before.take(0) =~= Seq::<(Seq<char>, u128)>::empty());
        }
        while i < self.seen.len()
            invariant
                i <= self.seen@.len(),
                wanted@ == ip@,
                self@ == before,
                kept@ == before.take(i as int).filter(remembered(now)),
                others@ == kept@.filter(from_elsewhere(ip@)),
                blocked == cooling(before.take(i as int), ip@, now),
            decreases self.seen@.len() - i,
        {
            let other = self.seen[i].0.clone();
            let then: u128 = self.seen[i].1;
            let passed: u128 = if now >= then {
                now - then
            } else {
                0
            };
            let same = other == wanted;
            let ghost kept_before = kept@;
            proof {
                reveal(Seq::filter);
                let upto = before.take(i + 1);
                assert(upto.drop_last() =~= before.take(i as int));
                assert(upto.last() == (other@, then));
                lemma_cooling_push(before.take(i as int), upto, ip@, now);
            }
            if same && passed < COOLDOWN_NS {
                blocked = true;
            }
            if passed < RETENTION_NS {
                let ghost others_before = others@;
                kept.seen.push((other.clone(), then));
                assert(kept@ =~= kept_before.push((other@, then)));
                assert(kept@.drop_last() =~= kept_before);
                if !same {
                    others.seen.push((other, then));
                    assert(others@ =~= others_before.push((other@, then)));
                }
            }
            i += 1;
        }
        assert(before.take(i as int) =~= before);
        if blocked {
            self.seen = kept.seen;
            assert(self@ =~= kept@);
            false
        } else {
            let ghost others_before = others@;
            others.seen.push((wanted, now));
            assert(others@ =~= others_before.push((ip@, now)));
            self.seen = others.seen;
            assert(self@ =~= others@);
            true
        }
    }
}

proof fn lemma_cooling_push(
    seen: Seq<(Seq<char>, u128)>,
    more: Seq<(Seq<char>, u128)>,
    ip: Seq<char>,
    now: u128,
)
    requires
        more.len() > 0,
        more.drop_last() == seen,
    ensures
        cooling(more, ip, now) <==> cooling(seen, ip, now) || (more.last().0 == ip && age(
            more.last().1,
            now,
        ) < COOLDOWN_NS),
{
    if cooling(seen, ip, now) {
        let i = choose|i: int|
            0 <= i < seen.len() && (#[trigger] seen[i]).0 == ip && age(seen[i].1, now)
                < COOLDOWN_NS;
        assert(more[i] == seen[i]);
    }
    if cooling(more, ip, now) {
        let i = choose|i: int|
            0 <= i < more.len() && (#[trigger] more[i]).0 == ip && age(more[i].1, now)
                < COOLDOWN_NS;
        if i < seen.len() {
            assert(seen[i] == more[i]);
        }
    }
}

// ---------------------------------------------------------------------------
// What is passed on
// ---------------------------------------------------------------------------

/// The text that is passed on: the message, who sent it and from where in the game.
pub open spec fn full_text(
    message: Seq<char>,
    name: Seq<char>,
    code: Seq<char>,
    phase: Seq<char>,
    url: Seq<char>,
    user_agent: Seq<char>,
) -> Seq<char> {
    let who = at_most(trimmed(name), 40);
    let room = uppercase(at_most(trimmed(code), 12));
    let stage = at_most(trimmed(phase), 24);
    let page = at_most(trimmed(url), 200);
    let signed = message + "\n\n— "@ + (if who.len() == 0 {
        "someone"@
    } else {
        who
    });
    let placed = if room.len() == 0 {
        signed
    } else {
        signed + " · room "@ + room
    };
    let staged = if stage.len() == 0 {
        placed
    } else {
        placed + " · "@ + stage
    };
    let linked = if page.len() == 0 {
        staged
    } else {
        staged + "\n"@ + page
    };
    let whole = if user_agent.len() == 0 {
        linked
    } else {
        linked + "\n"@ + at_most(trimmed(user_agent), 180)
    };
    at_most(trimmed(whole), FULL_LEN as nat)
}

fn is_blank(s: &str) -> (res: bool)
    ensures
        res == (s@.len() == 0),
{
    chars_of(s).len() == 0
}

/// Puts together the text that is passed on.
pub fn compose(message: String, body: &ReportRequest, user_agent: &str) -> (res: String)
    ensures
        res@ == full_text(
            message@,
            body.name@,
            body.code@,
            body.phase@,
            body.url@,
            user_agent@,
        ),
{
    let name = clip(body.name.as_str(), 40);
    let code = clip(body.code.as_str(), 12).as_str().to_uppercase();
    let phase = clip(body.phase.as_str(), 24);
    let page = clip(body.url.as_str(), 200);
    let mut full = message;
    full.append("\n\n— ");
    if is_blank(name.as_str()) {
        full.append("someone");
    } else {
        full.append(name.as_str());
    }
    if !is_blank(code.as_str()) {
        full.append(" · room ");
        full.append(code.as_str());
    }
    if !is_blank(phase.as_str()) {
        full.append(" · ");
        full.append(phase.as_str());
    }
    if !is_blank(page.as_str()) {
        full.append("\n");
        full.append(page.as_str());
    }
    if !is_blank(user_agent) {
        full.append("\n");
        full.append(clip(user_agent, 180).as_str());
    }
    clip(full.as_str(), FULL_LEN)
}

// ---------------------------------------------------------------------------
// The answer
// ---------------------------------------------------------------------------

/// What is answered to a report: a status, and the words of an error where there is one.
#[derive(Clone, Debug)]
pub struct ReportReply {
    pub status: u16,
    pub error: Option<String>,
}

/// What becomes of a report.
#[derive(Clone, Debug)]
pub enum Verdict {
    /// It is answered at once.
    Answer(ReportReply),
    /// Its text is passed on.
    PassOn(String),
}

/// The reply has the given status and words.
pub open spec fn says(reply: ReportReply, status: int, words: Seq<char>) -> bool {
    reply.status == status && (reply.error matches Some(error) && error@ == words)
}

/// The text of a header, empty where it is missing or cannot be shown.
pub open spec fn text_or_blank(value: Option<Seq<u8>>) -> Seq<char> {
    match value {
        Some(bytes) => match header_text(bytes) {
            Some(text) => text,
            None => seq![],
        },
        None => seq![],
    }
}

fn error_reply(status: u16, words: &str) -> (res: ReportReply)
    ensures
        says(res, status as int, words@),
{
    ReportReply { status, error: Some(String::from_str(words)) }
}

/// Decides what becomes of a report. Only one that is in order counts against its sender.
pub fn consider(
    configured: bool,
    limiter: &mut Limiter,
    body: &ReportRequest,
    headers: &ReportHeaders,
    peer: &str,
    now: u128,
) -> (res: Verdict)
    ensures
        ({
            let ip = sender(
                opt_bytes(headers.cf_connecting_ip),
                opt_bytes(headers.x_real_ip),
                peer@,
            );
            let refusal = message_refusal(body.message@);
            if !configured {
                &&& res matches Verdict::Answer(reply)
                &&& says(reply, 503, "Bug reports are not configured on this server."@)
                &&& final(limiter)@ == old(limiter)@
            } else if refusal is Some {
                &&& res matches Verdict::Answer(reply)
                &&& says(reply, 400, refusal->0)
                &&& final(limiter)@ == old(limiter)@
            } else if cooling(old(limiter)@, ip, now) {
                &&& res matches Verdict::Answer(reply)
                &&& says(reply, 429, "Hang on — try again in a minute."@)
                &&& final(limiter)@ == after_attempt(old(limiter)@, ip, now)
            } else {
                &&& res matches Verdict::PassOn(text)
                &&& text@ == full_text(
                    cleaned(body.message@),
                    body.name@,
                    body.code@,
                    body.phase@,
                    body.url@,
                    text_or_blank(opt_bytes(headers.user_agent)),
                )
                &&& final(limiter)@ == after_attempt(old(limiter)@, ip, now)
            }
        }),
        distinct_senders(old(limiter)@) ==> distinct_senders(final(limiter)@),
{
    if !configured {
        return Verdict::Answer(
            error_reply(503, "Bug reports are not configured on this server."),
        );
    }
    let message = match sanitize_message(body.message.as_str()) {
        Ok(message) => message,
        Err(words) => {
            return Verdict::Answer(error_reply(400, words));
        },
    };
    let ip = client_ip(headers, peer);
    if !limiter.allow(ip.as_str(), now) {
        return Verdict::Answer(error_reply(429, "Hang on — try again in a minute."));
    }
    let user_agent = match &headers.user_agent {
        Some(value) => match read_header(value) {
            Some(text) => text,
            None => String::new(),
        },
        None => String::new(),
    };
    assert(user_agent@ =~= text_or_blank(opt_bytes(headers.user_agent)));
    Verdict::PassOn(compose(message, body, user_agent.as_str()))
}

/// Answers a report that was passed on, by the status that came back, if one did.
pub fn delivered(status: Option<u16>) -> (res: ReportReply)
    ensures
        if status matches Some(s) && 200 <= s < 300 {
            res.status == 200 && res.error is None
        } else {
            says(res, 502, "Could not send the report."@)
        },
{
    match status {
        Some(s) => if 200 <= s && s < 300 {
            ReportReply { status: 200, error: None }
        } else {
            error_reply(502, "Could not send the report.")
        },
        None => error_reply(502, "Could not send the report."),
    }
}

/// A credential as it is configured, without white space: one that is left blank is none.
pub fn credential(raw: Option<String>) -> (res: Option<String>)
    ensures
        match (raw, res) {
            (Some(text), Some(kept)) => trimmed(text@).len() > 0 && kept@ == trimmed(text@),
            (Some(text), None) => trimmed(text@).len() == 0,
            (None, kept) => kept is None,
        },
{
    match raw {
        Some(text) => {
            let kept = trim(text.as_str());
            if is_blank(kept.as_str()) {
                None
            } else {
                Some(kept)
            }
        },
        None => None,
    }
}

} // verus!
