//! The operator console's logic: commands, the activity feed and what log lines
//! mean.
use crate::decimal::{parse_decimal, parsed_decimal, Dec};
use crate::text::{
    contains_text, find_text_from, first_occurrence_from, split_nth, split_piece, split_words,
    str_contains, str_eq, trim_end_ws, trim_start_ws, trim_whitespace, words,
};
use crate::market::Candle;
use crate::trading::{OrderSide, OrderType, TradeProposal};
use vstd::prelude::*;
use vstd::string::{StrSliceExecFns, StringExecFns};

verus! {

/// What `str::to_uppercase` makes of a text (Unicode upper-casing).
pub uninterp spec fn uppercased(text: Seq<char>) -> Seq<char>;

/// `str::to_uppercase`.
#[verifier::external_body]
fn to_uppercase(text: &str) -> (r: String)
    ensures
        r@ == uppercased(text@),
{
    text.to_uppercase()
}

/// Whether `std` classes the character as alphanumeric (`char::is_alphanumeric`).
pub uninterp spec fn is_alphanumeric_char(c: char) -> bool;

/// `char::is_alphanumeric`.
#[verifier::external_body]
fn char_is_alphanumeric(c: char) -> (r: bool)
    ensures
        r == is_alphanumeric_char(c),
{
    c.is_alphanumeric()
}

/// Whether `std` classes the character as upper case (`char::is_uppercase`).
pub uninterp spec fn is_uppercase_char(c: char) -> bool;

/// `char::is_uppercase`.
#[verifier::external_body]
fn char_is_uppercase(c: char) -> (r: bool)
    ensures
        r == is_uppercase_char(c),
{
    c.is_uppercase()
}

/// The number of bytes of a character in UTF-8.
pub open spec fn utf8_width(c: char) -> nat {
    if (c as u32) < 0x80 {
        1
    } else if (c as u32) < 0x800 {
        2
    } else if (c as u32) < 0x10000 {
        3
    } else {
        4
    }
}

/// `char::len_utf8`.
fn char_width(c: char) -> (r: usize)
    ensures
        r == utf8_width(c),
{
    let code = c as u32;
    if code < 0x80 {
        1
    } else if code < 0x800 {
        2
    } else if code < 0x10000 {
        3
    } else {
        4
    }
}

/// The number of bytes of a text in UTF-8.
pub open spec fn utf8_len(s: Seq<char>) -> nat
    decreases s.len(),
{
    if s.len() == 0 {
        0
    } else {
        utf8_len(s.drop_last()) + utf8_width(s.last())
    }
}

/// A command typed by the operator.
#[derive(Clone, Debug)]
pub enum UserCommand {
    /// `stop`, `halt` or `panic`: shut the market data sentinel down.
    Shutdown,
    /// `status`.
    Status,
    /// `buy SYMBOL QTY` or `sell SYMBOL QTY`.
    Trade { side: OrderSide, symbol: String, quantity: String },
    /// Anything else.
    Unknown,
}

/// The command the words of the input spell, if the input is not blank.
pub open spec fn command_of(ws: Seq<Seq<char>>) -> Option<u8> {
    if ws.len() == 0 {
        None
    } else if ws.len() == 1 && (ws[0] == "stop"@ || ws[0] == "halt"@ || ws[0] == "panic"@) {
        Some(0)
    } else if ws.len() == 1 && ws[0] == "status"@ {
        Some(1)
    } else if ws.len() == 3 && ws[0] == "buy"@ {
        Some(2)
    } else if ws.len() == 3 && ws[0] == "sell"@ {
        Some(3)
    } else {
        Some(4)
    }
}

/// Parse an operator command; a blank input is no command.
pub fn parse_command(input: &str) -> (r: Option<UserCommand>)
    ensures
        ({
            let ws = words(input@);
            match command_of(ws) {
                None => r is None,
                Some(0) => r matches Some(UserCommand::Shutdown),
                Some(1) => r matches Some(UserCommand::Status),
                Some(2) => r matches Some(UserCommand::Trade { side, symbol, quantity })
                    && side == OrderSide::Buy && symbol@ == ws[1] && quantity@ == ws[2],
                Some(3) => r matches Some(UserCommand::Trade { side, symbol, quantity })
                    && side == OrderSide::Sell && symbol@ == ws[1] && quantity@ == ws[2],
                _ => r matches Some(UserCommand::Unknown),
            }
        }),
{
    let parts = split_words(input);
    proof {
        reveal_strlit("stop");
        reveal_strlit("halt");
        reveal_strlit("panic");
        reveal_strlit("status");
        reveal_strlit("buy");
        reveal_strlit("sell");
        assert(parts@.len() == words(input@).len());
    }
    let ghost ws = words(input@);
    if parts.len() == 0 {
        return None;
    }
    proof {
        assert(parts@[0]@ == ws[0]);
    }
    let first = parts[0].as_str();
    if parts.len() == 1 {
        if str_eq(first, "stop") || str_eq(first, "halt") || str_eq(first, "panic") {
            return Some(UserCommand::Shutdown);
        }
        if str_eq(first, "status") {
            return Some(UserCommand::Status);
        }
        return Some(UserCommand::Unknown);
    }
    if parts.len() == 3 {
        proof {
            assert(parts@[1]@ == ws[1]);
            assert(parts@[2]@ == ws[2]);
        }
        let side = if str_eq(first, "buy") {
            Some(OrderSide::Buy)
        } else if str_eq(first, "sell") {
            Some(OrderSide::Sell)
        } else {
            None
        };
        if let Some(side) = side {
            return Some(
                UserCommand::Trade {
                    side,
                    symbol: String::from_str(parts[1].as_str()),
                    quantity: String::from_str(parts[2].as_str()),
                },
            );
        }
    }
    Some(UserCommand::Unknown)
}

/// The market order a trade command asks for: the symbol upper-cased, the
/// quantity as `rust_decimal` parses it (no order when it does not parse), no
/// price, the given reason and time.
pub fn trade_command_proposal(
    side: OrderSide,
    symbol: &str,
    quantity_text: &str,
    reason: String,
    timestamp: i64,
) -> (r: Option<TradeProposal>)
    ensures
        r is Some <==> parsed_decimal(quantity_text@) is Some,
        r matches Some(p) ==> Some(p.quantity@) == parsed_decimal(quantity_text@) && p.symbol@
            == uppercased(symbol@) && p.side == side && p.order_type == OrderType::Market
            && p.price.units() == 0 && p.reason@ == reason@ && p.timestamp == timestamp
            && p.stop_loss is None && p.take_profit is None,
{
    match parse_decimal(quantity_text) {
        Some(quantity) => Some(
            TradeProposal {
                symbol: to_uppercase(symbol),
                side,
                price: Dec::zero(),
                quantity,
                order_type: OrderType::Market,
                reason,
                timestamp,
                stop_loss: None,
                take_profit: None,
            },
        ),
        None => None,
    }
}

/// Kinds of activity shown in the feed.
#[derive(Clone, Copy, Debug, PartialEq, Eq, Structural)]
pub enum ActivityEventType {
    TradeExecuted,
    Signal,
    FilterBlock,
    StrategyChange,
    Alert,
    System,
}

/// Severity of an activity.
#[derive(Clone, Copy, Debug, PartialEq, Eq, Structural)]
pub enum EventSeverity {
    Info,
    Warning,
    Error,
}

/// Tabs of the dashboard's right panel.
#[derive(Clone, Copy, Debug, PartialEq, Eq, Structural)]
pub enum RightPanelTab {
    News,
    Activity,
}

/// An entry of the activity feed.
#[derive(Clone, Debug)]
pub struct ActivityEvent {
    /// When it happened (milliseconds since the epoch).
    pub timestamp: i64,
    pub event_type: ActivityEventType,
    pub message: String,
    pub severity: EventSeverity,
}

/// The number of events the feed keeps.
pub open spec fn feed_capacity() -> nat {
    20
}

/// The latest activity, newest first, at most twenty events.
pub struct ActivityFeed {
    events: Vec<ActivityEvent>,
}

impl View for ActivityFeed {
    type V = Seq<ActivityEvent>;

    closed spec fn view(&self) -> Seq<ActivityEvent> {
        self.events@
    }
}

impl ActivityFeed {
    pub fn new() -> (r: Self)
        ensures
            r@ == Seq::<ActivityEvent>::empty(),
    {
        ActivityFeed { events: Vec::new() }
    }

    /// Add an event in front; the oldest events beyond twenty are dropped.
    pub fn add_activity(&mut self, event: ActivityEvent)
        requires
            old(self)@.len() <= feed_capacity(),
        ensures
            final(self)@ == (seq![event] + old(self)@).take(
                if old(self)@.len() + 1 <= feed_capacity() {
                    (old(self)@.len() + 1) as int
                } else {
                    feed_capacity() as int
                },
            ),
            final(self)@.len() <= feed_capacity(),
    {
        let ghost before = self.events@;
        self.events.insert(0, event);
        proof {
            assert(self.events@ =~= seq![event] + before);
        }
        while self.events.len() > 20
            invariant
                self.events@.len() <= 21,
                self.events@.len() > 20 ==> self.events@ == seq![event] + before,
                self.events@.len() <= 20 ==> self.events@ == (seq![event] + before).take(
                    self.events@.len() as int,
                ),
                before.len() <= 20,
                self.events@.len() == 21 || self.events@.len() == before.len() + 1 || self.events@.len() == 20,
                self.events@.len() == 20 ==> before.len() + 1 >= 20,
            decreases self.events.len(),
        {
            self.events.pop();
            proof {
                assert(self.events@ =~= (seq![event] + before).take(20));
            }
        }
        proof {
            if before.len() + 1 <= 20 {
                assert(self.events@ =~= (seq![event] + before).take((before.len() + 1) as int));
            }
        }
    }

    /// The events, newest first.
    pub fn events(&self) -> (r: &Vec<ActivityEvent>)
        ensures
            r@ == self@,
    {
        &self.events
    }
}

/// Characters trimmed off a crypto pair: neither alphanumeric nor `/`.
pub open spec fn trimmed_char(c: char) -> bool {
    !is_alphanumeric_char(c) && c != '/'
}

/// The text without its leading trimmed characters.
pub open spec fn trim_front(s: Seq<char>) -> Seq<char>
    decreases s.len(),
{
    if s.len() > 0 && trimmed_char(s[0]) {
        trim_front(s.drop_first())
    } else {
        s
    }
}

/// The text without its trailing trimmed characters.
pub open spec fn trim_back(s: Seq<char>) -> Seq<char>
    decreases s.len(),
{
    if s.len() > 0 && trimmed_char(s.last()) {
        trim_back(s.drop_last())
    } else {
        s
    }
}

/// Whether every character is upper case.
pub open spec fn all_uppercase(s: Seq<char>) -> bool {
    forall|i: int| 0 <= i < s.len() ==> is_uppercase_char(#[trigger] s[i])
}

/// The symbol a word of a log line names: a pair such as `BTC/USD` (a word with
/// a `/` of at most 10 bytes, trimmed of surrounding punctuation) or a ticker such
/// as `AAPL` (2 to 5 bytes, all upper case).
pub open spec fn symbol_in_word(w: Seq<char>) -> Option<Seq<char>> {
    if w.contains('/') && utf8_len(w) <= 10 {
        Some(trim_back(trim_front(w)))
    } else if all_uppercase(w) && 2 <= utf8_len(w) <= 5 {
        Some(w)
    } else {
        None
    }
}

/// The symbol named by the first word that names one.
pub open spec fn first_symbol(ws: Seq<Seq<char>>) -> Option<Seq<char>>
    decreases ws.len(),
{
    if ws.len() == 0 {
        None
    } else {
        match symbol_in_word(ws[0]) {
            Some(s) => Some(s),
            None => first_symbol(ws.drop_first()),
        }
    }
}

proof fn lemma_all_uppercase_push(s: Seq<char>, c: char)
    ensures
        all_uppercase(s.push(c)) == (all_uppercase(s) && is_uppercase_char(c)),
{
    let t = s.push(c);
    if all_uppercase(s) && is_uppercase_char(c) {
        assert forall|i: int| 0 <= i < t.len() implies is_uppercase_char(#[trigger] t[i]) by {
            if i < s.len() {
                assert(t[i] == s[i]);
            }
        }
    }
    if all_uppercase(t) {
        assert(is_uppercase_char(t[s.len() as int]));
        assert forall|i: int| 0 <= i < s.len() implies is_uppercase_char(#[trigger] s[i]) by {
            assert(t[i] == s[i]);
        }
    }
}

proof fn lemma_trim_front(s: Seq<char>, k: int)
    requires
        0 <= k <= s.len(),
        forall|j: int| 0 <= j < k ==> trimmed_char(#[trigger] s[j]),
        k < s.len() ==> !trimmed_char(s[k]),
    ensures
        trim_front(s) == s.subrange(k, s.len() as int),
    decreases k,
{
    if k == 0 {
        assert(s.subrange(0, s.len() as int) =~= s);
    } else {
        let t = s.drop_first();
        assert forall|j: int| 0 <= j < k - 1 implies trimmed_char(#[trigger] t[j]) by {
            assert(t[j] == s[j + 1]);
        }
        assert(k - 1 < t.len() ==> t[k - 1] == s[k]);
        lemma_trim_front(t, k - 1);
        assert(t.subrange(k - 1, t.len() as int) =~= s.subrange(k, s.len() as int));
    }
}

proof fn lemma_trim_back(s: Seq<char>, k: int)
    requires
        0 <= k <= s.len(),
        forall|j: int| k <= j < s.len() ==> trimmed_char(#[trigger] s[j]),
        k > 0 ==> !trimmed_char(s[k - 1]),
    ensures
        trim_back(s) == s.subrange(0, k),
    decreases s.len() - k,
{
    if k == s.len() {
        assert(s.subrange(0, k) =~= s);
    } else {
        let t = s.drop_last();
        assert forall|j: int| k <= j < t.len() implies trimmed_char(#[trigger] t[j]) by {
            assert(t[j] == s[j]);
        }
        assert(k > 0 ==> t[k - 1] == s[k - 1]);
        lemma_trim_back(t, k);
        assert(t.subrange(0, k) =~= s.subrange(0, k));
    }
}

/// The symbol named in a word, if any.
fn word_symbol(w: &str) -> (r: Option<String>)
    ensures
        match symbol_in_word(w@) {
            Some(s) => r matches Some(t) && t@ == s,
            None => r is None,
        },
{
    let n = w.unicode_len();
    let mut bytes: usize = 0;
    let mut upper = true;
    let mut i: usize = 0;
    while i < n
        invariant
            n == w@.len(),
            i <= n,
            bytes <= 14,
            bytes <= 10 ==> bytes == utf8_len(w@.take(i as int)),
            (bytes > 10) == (utf8_len(w@.take(i as int)) > 10),
            upper == all_uppercase(w@.take(i as int)),
        decreases n - i,
    {
        let c = w.get_char(i);
        proof {
            assert(w@.take(i + 1) =~= w@.take(i as int).push(c));
            assert(w@.take(i + 1).drop_last() =~= w@.take(i as int));
            lemma_all_uppercase_push(w@.take(i as int), c);
        }
        if bytes <= 10 {
            bytes = bytes + char_width(c);
        }
        upper = upper && char_is_uppercase(c);
        i = i + 1;
    }
    proof {
        assert(w@.take(n as int) =~= w@);
    }
    if crate::text::str_contains_char(w, '/') && bytes <= 10 {
        let mut front: usize = 0;
        while front < n && !char_is_alphanumeric(w.get_char(front)) && w.get_char(front) != '/'
            invariant
                n == w@.len(),
                front <= n,
                forall|j: int| 0 <= j < front ==> trimmed_char(#[trigger] w@[j]),
            decreases n - front,
        {
            front = front + 1;
        }
        proof {
            lemma_trim_front(w@, front as int);
        }
        let ghost rest = w@.subrange(front as int, n as int);
        let mut back: usize = n;
        while back > front && !char_is_alphanumeric(w.get_char(back - 1)) && w.get_char(back - 1) != '/'
            invariant
                n == w@.len(),
                front <= back <= n,
                rest == w@.subrange(front as int, n as int),
                forall|j: int| back - front <= j < rest.len() ==> trimmed_char(#[trigger] rest[j]),
            decreases back,
        {
            proof {
                assert(rest[back - 1 - front] == w@[back - 1]);
            }
            back = back - 1;
        }
        proof {
            if back > front {
                assert(rest[back - 1 - front] == w@[back - 1]);
            }
            lemma_trim_back(rest, (back - front) as int);
            assert(rest.subrange(0, (back - front) as int) =~= w@.subrange(front as int, back as int));
        }
        return Some(String::from_str(w.substring_char(front, back)));
    }
    if upper && 2 <= bytes && bytes <= 5 {
        return Some(String::from_str(w));
    }
    None
}

/// The first symbol a log line names (see [`symbol_in_word`]).
pub fn extract_symbol_from_log(msg: &str) -> (r: Option<String>)
    ensures
        match first_symbol(words(msg@)) {
            Some(s) => r matches Some(t) && t@ == s,
            None => r is None,
        },
{
    let ws = split_words(msg);
    let ghost all = ws@.map_values(|w: String| w@);
    proof {
        assert(all.subrange(0, all.len() as int) =~= all);
    }
    let mut i: usize = 0;
    while i < ws.len()
        invariant
            i <= ws.len(),
            all == ws@.map_values(|w: String| w@),
            all == words(msg@),
            first_symbol(all) == first_symbol(all.subrange(i as int, all.len() as int)),
        decreases ws.len() - i,
    {
        let ghost tail = all.subrange(i as int, all.len() as int);
        proof {
            assert(tail[0] == ws@[i as int]@);
            assert(tail.drop_first() =~= all.subrange(i + 1, all.len() as int));
        }
        match word_symbol(ws[i].as_str()) {
            Some(s) => {
                return Some(s);
            },
            None => {},
        }
        i = i + 1;
    }
    proof {
        assert(all.subrange(i as int, all.len() as int) =~= Seq::<Seq<char>>::empty());
    }
    None
}

/// Why a log line reports a blocked signal.
#[derive(Clone, Copy, Debug, PartialEq, Eq, Structural)]
pub enum FilterReason {
    Rsi,
    Cost,
    Risk,
    Generic,
}

/// What a log line reports for the activity feed.
#[derive(Clone, Debug)]
pub enum LogActivity {
    TradeExecuted { symbol: String },
    Signal { buy: bool, symbol: String },
    FilterBlock { symbol: String, reason: FilterReason },
    StrategyChange,
    Alert { text: String, severity: EventSeverity },
}

/// Whether the log line holds `t`.
pub open spec fn has(msg: Seq<char>, t: Seq<char>) -> bool {
    contains_text(msg, t)
}

/// The first sixty characters of a text.
pub open spec fn head60(msg: Seq<char>) -> Seq<char> {
    msg.take(if msg.len() < 60 {
        msg.len() as int
    } else {
        60
    })
}

/// The reason of a blocked signal by the words of the line.
pub open spec fn filter_reason(msg: Seq<char>) -> FilterReason {
    if has(msg, "RSI"@) {
        FilterReason::Rsi
    } else if has(msg, "cost"@) || has(msg, "Cost"@) {
        FilterReason::Cost
    } else if has(msg, "risk"@) || has(msg, "Risk"@) {
        FilterReason::Risk
    } else {
        FilterReason::Generic
    }
}

fn text_head(msg: &str) -> (r: String)
    ensures
        r@ == head60(msg@),
{
    let n = msg.unicode_len();
    let k = if n < 60 {
        n
    } else {
        60
    };
    String::from_str(msg.substring_char(0, k))
}

/// Read a log line for the activity feed: executed orders, strategy signals and
/// blocked signals (each with the symbol named in the line, else nothing),
/// strategy changes, errors, and warnings about circuit breakers or limits (as
/// their first sixty characters).
pub fn parse_log_for_activity(msg: &str) -> (r: Option<LogActivity>)
    ensures
        ({
            let m = msg@;
            let sym = first_symbol(words(m));
            if has(m, "Order"@) && (has(m, "filled"@) || has(m, "executed"@)) {
                match sym {
                    Some(s) => r matches Some(LogActivity::TradeExecuted { symbol }) && symbol@ == s,
                    None => r is None,
                }
            } else if has(m, "SignalGenerator"@) {
                if (has(m, "BUY"@) || has(m, "SELL"@)) && sym is Some {
                    r matches Some(LogActivity::Signal { buy, symbol }) && buy == has(m, "BUY"@)
                        && symbol@ == sym->0
                } else {
                    r is None
                }
            } else if has(m, "REJECT"@) || has(m, "blocked"@) || has(m, "filtered"@) {
                match sym {
                    Some(s) => r matches Some(LogActivity::FilterBlock { symbol, reason })
                        && symbol@ == s && reason == filter_reason(m),
                    None => r is None,
                }
            } else if has(m, "Strategy"@) && has(m, "changed"@) {
                r matches Some(LogActivity::StrategyChange)
            } else if has(m, "ERROR"@) {
                r matches Some(LogActivity::Alert { text, severity }) && text@ == head60(m)
                    && severity == EventSeverity::Error
            } else if has(m, "WARN"@) && (has(m, "Circuit"@) || has(m, "limit"@)) {
                r matches Some(LogActivity::Alert { text, severity }) && text@ == head60(m)
                    && severity == EventSeverity::Warning
            } else {
                r is None
            }
        }),
{
    if str_contains(msg, "Order") && (str_contains(msg, "filled") || str_contains(msg, "executed")) {
        return match extract_symbol_from_log(msg) {
            Some(symbol) => Some(LogActivity::TradeExecuted { symbol }),
            None => None,
        };
    }
    if str_contains(msg, "SignalGenerator") {
        let buy = str_contains(msg, "BUY");
        if buy || str_contains(msg, "SELL") {
            if let Some(symbol) = extract_symbol_from_log(msg) {
                return Some(LogActivity::Signal { buy, symbol });
            }
        }
        return None;
    }
    if str_contains(msg, "REJECT") || str_contains(msg, "blocked") || str_contains(msg, "filtered") {
        return match extract_symbol_from_log(msg) {
            Some(symbol) => {
                let reason = if str_contains(msg, "RSI") {
                    FilterReason::Rsi
                } else if str_contains(msg, "cost") || str_contains(msg, "Cost") {
                    FilterReason::Cost
                } else if str_contains(msg, "risk") || str_contains(msg, "Risk") {
                    FilterReason::Risk
                } else {
                    FilterReason::Generic
                };
                Some(LogActivity::FilterBlock { symbol, reason })
            },
            None => None,
        };
    }
    if str_contains(msg, "Strategy") && str_contains(msg, "changed") {
        return Some(LogActivity::StrategyChange);
    }
    if str_contains(msg, "ERROR") {
        return Some(LogActivity::Alert { text: text_head(msg), severity: EventSeverity::Error });
    }
    if str_contains(msg, "WARN") && (str_contains(msg, "Circuit") || str_contains(msg, "limit")) {
        return Some(LogActivity::Alert { text: text_head(msg), severity: EventSeverity::Warning });
    }
    None
}

/// The strategy signal a log line reports (`SignalGenerator [name]: SYMBOL -
/// reason`): the symbol and the reason without surrounding white space. The
/// line must name `SignalGenerator` and hold `: `; the reason is the second
/// ` - `-separated piece after the name, the symbol the text after `]: ` up to
/// ` - `.
pub open spec fn signal_in_log(msg: Seq<char>) -> Option<(Seq<char>, Seq<char>)> {
    match split_piece(msg, "SignalGenerator"@, 1) {
        Some(part) => if first_occurrence_from(msg, ": "@, 0) is Some {
            match (split_piece(part, " - "@, 1), split_piece(part, "]: "@, 1)) {
                (Some(content), Some(section)) => Some(
                    (split_piece(section, " - "@, 0)->0, trim_end_ws(trim_start_ws(content))),
                ),
                _ => None,
            }
        } else {
            None
        },
        None => None,
    }
}

/// The symbol and reason of a strategy signal reported in a log line, if it
/// reports one.
pub fn parse_signal_log(msg: &str) -> (r: Option<(String, String)>)
    ensures
        (match r {
            Some((symbol, reason)) => Some((symbol@, reason@)),
            None => None,
        }) == signal_in_log(msg@),
{
    proof {
        reveal_strlit("SignalGenerator");
        reveal_strlit(": ");
        reveal_strlit(" - ");
        reveal_strlit("]: ");
    }
    let part = match split_nth(msg, "SignalGenerator", 1) {
        Some(p) => p,
        None => {
            return None;
        },
    };
    if find_text_from(msg, ": ", 0).is_none() {
        return None;
    }
    let content = match split_nth(part.as_str(), " - ", 1) {
        Some(c) => c,
        None => {
            return None;
        },
    };
    let section = match split_nth(part.as_str(), "]: ", 1) {
        Some(t) => t,
        None => {
            return None;
        },
    };
    match split_nth(section.as_str(), " - ", 0) {
        Some(symbol) => Some((symbol, trim_whitespace(content.as_str()))),
        None => None,
    }
}

/// The number of candles the dashboard keeps per symbol.
pub open spec fn chart_capacity() -> nat {
    100
}

/// Append a candle to a symbol's chart history, dropping the oldest one when
/// the history grows beyond 100 candles.
pub fn record_candle(history: &mut Vec<Candle>, candle: Candle)
    ensures
        final(history)@ == (if old(history)@.len() + 1 > chart_capacity() {
            old(history)@.push(candle).drop_first()
        } else {
            old(history)@.push(candle)
        }),
{
    history.push(candle);
    if history.len() > 100 {
        history.remove(0);
    }
}

/// Keep the chat history manageable: beyond 1000 messages the oldest 100 are
/// dropped.
pub fn trim_chat_history(history: &mut Vec<(String, String)>)
    ensures
        final(history)@ == (if old(history)@.len() > 1000 {
            old(history)@.skip(100)
        } else {
            old(history)@
        }),
{
    if history.len() > 1000 {
        let rest = history.split_off(100);
        *history = rest;
    }
}

} // verus!
