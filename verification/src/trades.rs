//! Trades in the messages of the exchange: the streamed feed and the historical pages.
//!
//! A streamed message has the shape
//! `[channel,[["price","volume","time","side","type","misc"],...],"trade","pair"]`.
//! A page of history has entries `["price","volume",time,"side",...]` and a cursor
//! `"last":"..."`. Prices and volumes are handed on as text.

use vstd::prelude::*;
use crate::text::{
    chars_of, find_chars, find_chars_from, float_text, parse_u64, rfind_chars, slice_chars,
    split_chars, string_of, strip_chars,
};

verus! {

/// A trade of the streamed feed.
pub struct Trade {
    /// Price, as text.
    pub price: String,
    /// Volume without its sign, as text.
    pub volume: String,
    /// The taker sold.
    pub sell: bool,
    /// When the exchange traded, in nanoseconds since the epoch.
    pub time_ns: u64,
}

/// What a streamed trade says.
pub ghost struct TradeView {
    /// Price, as text.
    pub price: Seq<char>,
    /// Volume without its sign, as text.
    pub volume: Seq<char>,
    /// The taker sold.
    pub sell: bool,
    /// When the exchange traded.
    pub time_ns: u64,
}

impl View for Trade {
    type V = TradeView;

    open spec fn view(&self) -> TradeView {
        TradeView {
            price: self.price@,
            volume: self.volume@,
            sell: self.sell,
            time_ns: self.time_ns,
        }
    }
}

/// A trade of a page of history.
pub struct PastTrade {
    /// Price, as text.
    pub price: String,
    /// Volume without its sign, as text.
    pub volume: String,
    /// The taker sold.
    pub sell: bool,
    /// When the exchange traded, in seconds since the epoch, as text.
    pub time: String,
}

/// What a trade of a page of history says.
pub ghost struct PastTradeView {
    /// Price, as text.
    pub price: Seq<char>,
    /// Volume without its sign, as text.
    pub volume: Seq<char>,
    /// The taker sold.
    pub sell: bool,
    /// When the exchange traded, as text.
    pub time: Seq<char>,
}

impl View for PastTrade {
    type V = PastTradeView;

    open spec fn view(&self) -> PastTradeView {
        PastTradeView {
            price: self.price@,
            volume: self.volume@,
            sell: self.sell,
            time: self.time@,
        }
    }
}

/// The quoted strings from position `i` on; `open` holds what was read of a string that
/// began before `i`. A backslash stands for the character behind it, and a string that
/// does not end is left out.
pub open spec fn tokens_from(s: Seq<char>, i: int, open: Option<Seq<char>>) -> Seq<Seq<char>>
    decreases s.len() - i,
{
    if i < 0 || i >= s.len() {
        Seq::empty()
    } else {
        match open {
            None => if s[i] == '"' {
                tokens_from(s, i + 1, Some(Seq::empty()))
            } else {
                tokens_from(s, i + 1, None)
            },
            Some(read) => if s[i] == '\\' {
                if i + 1 < s.len() {
                    tokens_from(s, i + 2, Some(read.push(s[i + 1])))
                } else {
                    Seq::empty()
                }
            } else if s[i] == '"' {
                seq![read] + tokens_from(s, i + 1, None)
            } else {
                tokens_from(s, i + 1, Some(read.push(s[i])))
            },
        }
    }
}

/// The contents of the quoted strings in a text, in order.
pub open spec fn tokens(s: Seq<char>) -> Seq<Seq<char>> {
    tokens_from(s, 0, None)
}

/// The text is one quoted string, from its first character to its last.
pub open spec fn one_string(s: Seq<char>) -> bool {
    s.len() > 0 && s[0] == '"' && tokens(s).len() == 1 && tokens(s.drop_last()).len() == 0
}

/// What a tail holds between its comma and its closing bracket, without blanks around it.
pub open spec fn tail_content(tail: Seq<char>) -> Seq<char> {
    let t = crate::text::stripped(tail, false);
    crate::text::stripped(t.subrange(1, t.len() - 1), false)
}

/// The tail of a trade message behind its `"trade"`: a comma, one quoted string, and the
/// bracket that closes the message. Blanks between them do not count.
pub open spec fn trade_tail(tail: Seq<char>) -> bool {
    let t = crate::text::stripped(tail, false);
    t.len() >= 2 && t[0] == ',' && t.last() == ']' && one_string(tail_content(tail))
}

/// The pair that a trade message ends with; nothing if it is no trade message, whatever
/// else it says of trades.
pub open spec fn pair_of(msg: Seq<char>) -> Option<Seq<char>> {
    match crate::text::last(msg, "\"trade\""@) {
        Some(i) => if trade_tail(msg.skip(i + 7)) {
            Some(tokens(tail_content(msg.skip(i + 7)))[0])
        } else {
            None
        },
        None => None,
    }
}

/// The first nine digits of a fraction, filled up with zeros.
pub open spec fn nanoseconds_text(frac: Seq<char>) -> Seq<char> {
    if frac.len() < 9 {
        frac + crate::text::repeated('0', 9 - frac.len())
    } else {
        frac.take(9)
    }
}

/// Nanoseconds since the epoch, modulo 2^64, of a time `seconds.fraction`.
pub open spec fn kraken_ts(s: Seq<char>) -> Option<u64> {
    let (sec, frac) = match crate::text::first(s, seq!['.']) {
        Some(i) => (s.take(i), s.skip(i + 1)),
        None => (s, Seq::empty()),
    };
    match (crate::text::parsed_u64(sec), crate::text::parsed_u64(nanoseconds_text(frac))) {
        (Some(a), Some(b)) => Some(((a * 1_000_000_000 + b) % 0x1_0000_0000_0000_0000) as u64),
        _ => None,
    }
}

/// The contents of the brackets from position `i` on.
pub open spec fn bracketed(s: Seq<char>, i: int) -> Seq<Seq<char>>
    decreases s.len() - i,
{
    match crate::text::first_from(s, seq!['['], i) {
        Some(a) => match crate::text::first_from(s, seq![']'], a + 1) {
            Some(b) => if 0 <= i <= a < b < s.len() {
                seq![s.subrange(a + 1, b)] + bracketed(s, b + 1)
            } else {
                Seq::empty()
            },
            None => Seq::empty(),
        },
        None => Seq::empty(),
    }
}

/// The contents of the brackets inside the first `[[`.
pub open spec fn entries(s: Seq<char>) -> Seq<Seq<char>> {
    match crate::text::first(s, "[["@) {
        Some(p) => bracketed(s, p + 1),
        None => Seq::empty(),
    }
}

/// The trade of one entry of a streamed message.
pub open spec fn entry_trade(entry: Seq<char>) -> Option<TradeView> {
    let t = tokens(entry);
    if t.len() >= 4 && crate::text::is_float_text(t[0]) && crate::text::is_float_text(t[1])
        && kraken_ts(t[2]) is Some {
        Some(
            TradeView {
                price: t[0],
                volume: t[1],
                sell: t[3].len() > 0 && t[3][0] == 's',
                time_ns: kraken_ts(t[2])->0,
            },
        )
    } else {
        None
    }
}

/// The trades of the first `n` entries of a streamed message.
pub open spec fn entry_trades(e: Seq<Seq<char>>, n: int) -> Seq<TradeView>
    decreases n,
{
    if n <= 0 {
        Seq::empty()
    } else {
        match entry_trade(e[n - 1]) {
            Some(t) => entry_trades(e, n - 1).push(t),
            None => entry_trades(e, n - 1),
        }
    }
}

/// The trades of a streamed message; none if it is no trade message.
pub open spec fn trades_of(msg: Seq<char>) -> Seq<TradeView> {
    if pair_of(msg) is Some {
        entry_trades(entries(msg), entries(msg).len() as int)
    } else {
        Seq::empty()
    }
}

/// A field of an entry of history, without blanks and quotation marks around it.
pub open spec fn bare(field: Seq<char>) -> Seq<char> {
    crate::text::stripped(crate::text::stripped(field, false), true)
}

/// The trade of one entry of a page of history.
pub open spec fn entry_past_trade(entry: Seq<char>) -> Option<PastTradeView> {
    let f = crate::text::split(entry, ',');
    if f.len() >= 4 && crate::text::is_float_text(bare(f[0])) && crate::text::is_float_text(
        bare(f[1]),
    ) && crate::text::is_float_text(bare(f[2])) {
        Some(
            PastTradeView {
                price: bare(f[0]),
                volume: bare(f[1]),
                sell: bare(f[3]).len() > 0 && bare(f[3])[0] == 's',
                time: bare(f[2]),
            },
        )
    } else {
        None
    }
}

/// The trades of the first `n` entries of a page of history.
pub open spec fn entry_past_trades(e: Seq<Seq<char>>, n: int) -> Seq<PastTradeView>
    decreases n,
{
    if n <= 0 {
        Seq::empty()
    } else {
        match entry_past_trade(e[n - 1]) {
            Some(t) => entry_past_trades(e, n - 1).push(t),
            None => entry_past_trades(e, n - 1),
        }
    }
}

/// The trades of a page of history.
pub open spec fn past_trades_of(body: Seq<char>) -> Seq<PastTradeView> {
    entry_past_trades(entries(body), entries(body).len() as int)
}

/// The cursor of a page of history; empty if there is none.
pub open spec fn cursor_of(body: Seq<char>) -> Seq<char> {
    match crate::text::first(body, "\"last\":\""@) {
        Some(i) => crate::text::split(body.skip(i + 8), '"')[0],
        None => Seq::empty(),
    }
}

fn tokens_of(cs: &Vec<char>) -> (out: Vec<Vec<char>>)
    ensures
        crate::text::char_views(out@) == tokens(cs@),
{
    let n: usize = cs.len();
    let mut out: Vec<Vec<char>> = Vec::new();
    let mut read: Vec<char> = Vec::new();
    let mut inside: bool = false;
    let mut i: usize = 0;
    assert(crate::text::char_views(out@) == Seq::<Seq<char>>::empty());
    while i < n
        invariant
            n == cs.len(),
            i <= n,
            !inside ==> read@ == Seq::<char>::empty(),
            crate::text::char_views(out@) + tokens_from(
                cs@,
                i as int,
                if inside {
                    Some(read@)
                } else {
                    None
                },
            ) == tokens(cs@),
        decreases n - i,
    {
        let c = cs[i];
        let ghost before = crate::text::char_views(out@);
        if inside {
            if c == '\\' {
                if i + 1 < n {
                    read.push(cs[i + 1]);
                    i = i + 2;
                } else {
                    i = n;
                }
            } else if c == '"' {
                let ghost t = read@;
                out.push(read);
                assert(crate::text::char_views(out@) == before.push(t));
                read = Vec::new();
                inside = false;
                i = i + 1;
                assert(before.push(t) + tokens_from(cs@, i as int, None) == before + (seq![t]
                    + tokens_from(cs@, i as int, None)));
            } else {
                read.push(c);
                i = i + 1;
            }
        } else {
            if c == '"' {
                inside = true;
            }
            i = i + 1;
        }
    }
    assert(crate::text::char_views(out@) == tokens(cs@));
    out
}

/// The contents of the quoted strings in a text, in order.
pub fn quoted_tokens(s: &str) -> (out: Vec<String>)
    ensures
        crate::text::views(out@) == tokens(s@),
{
    let cs = chars_of(s);
    let toks = tokens_of(&cs);
    let mut out: Vec<String> = Vec::new();
    let mut i: usize = 0;
    while i < toks.len()
        invariant
            i <= toks.len(),
            crate::text::char_views(toks@) == tokens(s@),
            crate::text::views(out@) == tokens(s@).take(i as int),
        decreases toks.len() - i,
    {
        let t = string_of(&toks[i]);
        assert(t@ == toks@[i as int]@);
        assert(tokens(s@)[i as int] == toks@[i as int]@);
        let ghost before = crate::text::views(out@);
        out.push(t);
        assert(crate::text::views(out@) == before.push(t@));
        i = i + 1;
        assert(crate::text::views(out@) == tokens(s@).take(i as int));
    }
    assert(tokens(s@).take(toks@.len() as int) == tokens(s@));
    out
}

fn pair_chars(cs: &Vec<char>) -> (r: Option<Vec<char>>)
    ensures
        r is Some <==> pair_of(cs@) is Some,
        r matches Some(p) ==> pair_of(cs@) == Some(p@),
{
    let mark = chars_of("\"trade\"");
    proof {
        reveal_strlit("\"trade\"");
    }
    let i: usize = match rfind_chars(cs, &mark) {
        Some(i) => i,
        None => {
            return None;
        },
    };
    let tail = slice_chars(cs, i + 7, cs.len());
    assert(tail@ == cs@.skip(i + 7));
    let t = strip_chars(&tail, false);
    if t.len() < 2 || t[0] != ',' || t[t.len() - 1] != ']' {
        return None;
    }
    let between = slice_chars(&t, 1, t.len() - 1);
    let q = strip_chars(&between, false);
    assert(q@ == tail_content(tail@));
    if q.len() == 0 || q[0] != '"' {
        return None;
    }
    let opened = slice_chars(&q, 0, q.len() - 1);
    assert(opened@ == q@.drop_last());
    let toks = tokens_of(&q);
    if toks.len() != 1 || tokens_of(&opened).len() != 0 {
        return None;
    }
    assert(tokens(q@)[0] == toks@[0]@);
    let n: usize = toks[0].len();
    let pair = slice_chars(&toks[0], 0, n);
    assert(pair@ == toks@[0]@);
    Some(pair)
}

/// The pair that a trade message ends with; nothing if it is no trade message.
pub fn frame_pair(msg: &str) -> (r: Option<String>)
    ensures
        r is Some <==> pair_of(msg@) is Some,
        r matches Some(p) ==> pair_of(msg@) == Some(p@),
{
    let cs = chars_of(msg);
    match pair_chars(&cs) {
        Some(pair) => Some(string_of(&pair)),
        None => None,
    }
}

fn ts_of(cs: &Vec<char>) -> (r: Option<u64>)
    ensures
        r == kraken_ts(cs@),
{
    let n: usize = cs.len();
    let point: Vec<char> = vec!['.'];
    assert(point@ == seq!['.']);
    let (sec, frac): (Vec<char>, Vec<char>) = match find_chars(cs, &point) {
        Some(i) => {
            assert(cs@.subrange(0, i as int) == cs@.take(i as int));
            assert(cs@.subrange(i + 1, n as int) == cs@.skip(i + 1));
            (slice_chars(cs, 0, i), slice_chars(cs, i + 1, n))
        },
        None => {
            assert(cs@.subrange(0, n as int) == cs@);
            (slice_chars(cs, 0, n), Vec::new())
        },
    };
    let mut nano: Vec<char> = Vec::new();
    let mut i: usize = 0;
    while i < 9
        invariant
            i <= 9,
            nano@ == nanoseconds_text(frac@).take(i as int),
        decreases 9 - i,
    {
        if i < frac.len() {
            nano.push(frac[i]);
        } else {
            nano.push('0');
        }
        i = i + 1;
        assert(nano@ == nanoseconds_text(frac@).take(i as int));
    }
    assert(nano@ == nanoseconds_text(frac@));
    match (parse_u64(&sec), parse_u64(&nano)) {
        (Some(a), Some(b)) => {
            proof {
                vstd::arithmetic::div_mod::lemma_add_mod_noop_right(
                    b as int,
                    a * 1_000_000_000,
                    0x1_0000_0000_0000_0000,
                );
            }
            Some(a.wrapping_mul(1_000_000_000).wrapping_add(b))
        },
        _ => None,
    }
}

/// Nanoseconds since the epoch of a time `seconds.fraction`; nothing if it is malformed.
pub fn parse_kraken_ts(s: &str) -> (r: Option<u64>)
    ensures
        r == kraken_ts(s@),
{
    let cs = chars_of(s);
    ts_of(&cs)
}

fn bracket_contents(cs: &Vec<char>, from: usize) -> (out: Vec<Vec<char>>)
    ensures
        crate::text::char_views(out@) == bracketed(cs@, from as int),
{
    let opening: Vec<char> = vec!['['];
    let closing: Vec<char> = vec![']'];
    assert(opening@ == seq!['[']);
    assert(closing@ == seq![']']);
    let mut out: Vec<Vec<char>> = Vec::new();
    let mut i: usize = from;
    assert(crate::text::char_views(out@) == Seq::<Seq<char>>::empty());
    loop
        invariant
            opening@ == seq!['['],
            closing@ == seq![']'],
            crate::text::char_views(out@) + bracketed(cs@, i as int) == bracketed(
                cs@,
                from as int,
            ),
        decreases cs.len() + 1 - i,
    {
        proof {
            lemma_first_from_bounds(cs@, seq!['['], i as int);
        }
        let a: usize = match find_chars_from(cs, &opening, i) {
            Some(a) => a,
            None => {
                assert(bracketed(cs@, i as int) == Seq::<Seq<char>>::empty());
                assert(crate::text::char_views(out@) == bracketed(cs@, from as int));
                return out;
            },
        };
        proof {
            lemma_first_from_bounds(cs@, seq![']'], a + 1);
        }
        let b: usize = match find_chars_from(cs, &closing, a + 1) {
            Some(b) => b,
            None => {
                assert(bracketed(cs@, i as int) == Seq::<Seq<char>>::empty());
                assert(crate::text::char_views(out@) == bracketed(cs@, from as int));
                return out;
            },
        };
        let ghost before = crate::text::char_views(out@);
        let piece = slice_chars(cs, a + 1, b);
        out.push(piece);
        assert(crate::text::char_views(out@) == before.push(piece@));
        assert(before.push(piece@) + bracketed(cs@, b + 1) == before + (seq![piece@] + bracketed(
            cs@,
            b + 1,
        )));
        i = b + 1;
    }
}

proof fn lemma_first_from_bounds(s: Seq<char>, needle: Seq<char>, i: int)
    requires
        needle.len() == 1,
    ensures
        crate::text::first_from(s, needle, i) matches Some(a) ==> i <= a < s.len(),
    decreases s.len() - i,
{
    if 0 <= i && i + needle.len() <= s.len() && !crate::text::occurs_at(s, needle, i) {
        lemma_first_from_bounds(s, needle, i + 1);
    }
}

fn entry_texts(cs: &Vec<char>) -> (out: Vec<Vec<char>>)
    ensures
        crate::text::char_views(out@) == entries(cs@),
{
    let mark = chars_of("[[");
    proof {
        reveal_strlit("[[");
    }
    match find_chars(cs, &mark) {
        Some(p) => bracket_contents(cs, p + 1),
        None => {
            let out: Vec<Vec<char>> = Vec::new();
            assert(crate::text::char_views(out@) == Seq::<Seq<char>>::empty());
            out
        },
    }
}

/// The views of trades.
pub open spec fn trade_views(v: Seq<Trade>) -> Seq<TradeView> {
    Seq::new(v.len(), |i: int| v[i]@)
}

/// The views of trades of history.
pub open spec fn past_trade_views(v: Seq<PastTrade>) -> Seq<PastTradeView> {
    Seq::new(v.len(), |i: int| v[i]@)
}

fn trade_of(entry: &Vec<char>) -> (r: Option<Trade>)
    ensures
        r is Some <==> entry_trade(entry@) is Some,
        r matches Some(t) ==> entry_trade(entry@) == Some(t@),
{
    let t = tokens_of(entry);
    if t.len() < 4 {
        return None;
    }
    let ghost v = tokens(entry@);
    assert(v[0] == t@[0]@);
    assert(v[1] == t@[1]@);
    assert(v[2] == t@[2]@);
    assert(v[3] == t@[3]@);
    if !float_text(&t[0]) || !float_text(&t[1]) {
        return None;
    }
    match ts_of(&t[2]) {
        Some(time_ns) => {
            let side = &t[3];
            Some(
                Trade {
                    price: string_of(&t[0]),
                    volume: string_of(&t[1]),
                    sell: side.len() > 0 && side[0] == 's',
                    time_ns,
                },
            )
        },
        None => None,
    }
}

/// The trades of a streamed message; none if it is no trade message.
pub fn parse_trades(msg: &str) -> (out: Vec<Trade>)
    ensures
        trade_views(out@) == trades_of(msg@),
{
    let mut out: Vec<Trade> = Vec::new();
    let cs = chars_of(msg);
    assert(trade_views(out@) == Seq::<TradeView>::empty());
    if pair_chars(&cs).is_none() {
        return out;
    }
    let e = entry_texts(&cs);
    let mut i: usize = 0;
    while i < e.len()
        invariant
            i <= e.len(),
            crate::text::char_views(e@) == entries(msg@),
            trade_views(out@) == entry_trades(entries(msg@), i as int),
        decreases e.len() - i,
    {
        assert(entries(msg@)[i as int] == e@[i as int]@);
        let ghost before = trade_views(out@);
        match trade_of(&e[i]) {
            Some(t) => {
                let ghost tv = t@;
                out.push(t);
                assert(trade_views(out@) == before.push(tv));
            },
            None => {},
        }
        i = i + 1;
    }
    out
}

fn past_trade_of(entry: &Vec<char>) -> (r: Option<PastTrade>)
    ensures
        r is Some <==> entry_past_trade(entry@) is Some,
        r matches Some(t) ==> entry_past_trade(entry@) == Some(t@),
{
    let f = split_chars(entry, ',');
    if f.len() < 4 {
        return None;
    }
    let ghost v = crate::text::split(entry@, ',');
    assert(v[0] == f@[0]@);
    assert(v[1] == f@[1]@);
    assert(v[2] == f@[2]@);
    assert(v[3] == f@[3]@);
    let price = bare_field(&f[0]);
    let volume = bare_field(&f[1]);
    let time = bare_field(&f[2]);
    let side = bare_field(&f[3]);
    if !float_text(&price) || !float_text(&volume) || !float_text(&time) {
        return None;
    }
    Some(
        PastTrade {
            price: string_of(&price),
            volume: string_of(&volume),
            sell: side.len() > 0 && side[0] == 's',
            time: string_of(&time),
        },
    )
}

fn bare_field(field: &Vec<char>) -> (out: Vec<char>)
    ensures
        out@ == bare(field@),
{
    let trimmed = strip_chars(field, false);
    strip_chars(&trimmed, true)
}

/// The trades of a page of history, and the cursor of the next page.
pub fn parse_rest_trades(body: &str) -> (r: (Vec<PastTrade>, String))
    ensures
        past_trade_views(r.0@) == past_trades_of(body@),
        r.1@ == cursor_of(body@),
{
    let cs = chars_of(body);
    let mark = chars_of("\"last\":\"");
    proof {
        reveal_strlit("\"last\":\"");
    }
    let last: String = match find_chars(&cs, &mark) {
        Some(i) => {
            let tail = slice_chars(&cs, i + 8, cs.len());
            assert(tail@ == body@.skip(i + 8));
            let f = split_chars(&tail, '"');
            assert(crate::text::split(tail@, '"')[0] == f@[0]@);
            string_of(&f[0])
        },
        None => String::new(),
    };
    assert(last@ == cursor_of(body@));
    let mut out: Vec<PastTrade> = Vec::new();
    assert(past_trade_views(out@) == Seq::<PastTradeView>::empty());
    let e = entry_texts(&cs);
    let mut i: usize = 0;
    while i < e.len()
        invariant
            i <= e.len(),
            crate::text::char_views(e@) == entries(body@),
            past_trade_views(out@) == entry_past_trades(entries(body@), i as int),
        decreases e.len() - i,
    {
        assert(entries(body@)[i as int] == e@[i as int]@);
        let ghost before = past_trade_views(out@);
        match past_trade_of(&e[i]) {
            Some(t) => {
                let ghost tv = t@;
                out.push(t);
                assert(past_trade_views(out@) == before.push(tv));
            },
            None => {},
        }
        i = i + 1;
    }
    (out, last)
}

/// A message without `"trade"`, or with none that the tail of a trade message follows, has
/// no trades and no pair.
pub proof fn law_other_messages_ignored(msg: Seq<char>)
    requires
        forall|i: int|
            crate::text::occurs_at(msg, "\"trade\""@, i) ==> !trade_tail(#[trigger] msg.skip(i + 7)),
    ensures
        trades_of(msg) == Seq::<TradeView>::empty(),
        pair_of(msg) is None,
{
    crate::text::law_last(msg, "\"trade\""@);
}

/// A message that does not end with a bracket, such as an object, has no trades and no pair,
/// whatever it holds.
pub proof fn law_objects_ignored(msg: Seq<char>)
    requires
        msg.len() > 0,
        msg.last() != ']',
        !crate::text::white(msg.last()),
    ensures
        trades_of(msg) == Seq::<TradeView>::empty(),
        pair_of(msg) is None,
{
    match crate::text::last(msg, "\"trade\""@) {
        Some(i) => {
            crate::text::law_last(msg, "\"trade\""@);
            reveal_strlit("\"trade\"");
            let tail = msg.skip(i + 7);
            if tail.len() > 0 {
                assert(tail.last() == msg.last());
                lemma_front_keeps_last(tail);
            }
            assert(!trade_tail(tail));
        },
        None => {},
    }
}

proof fn lemma_front_keeps_last(s: Seq<char>)
    requires
        s.len() > 0,
        !crate::text::white(s.last()),
    ensures
        crate::text::stripped_front(s, false).len() > 0,
        crate::text::stripped_front(s, false).last() == s.last(),
    decreases s.len(),
{
    if crate::text::white(s[0]) {
        lemma_front_keeps_last(s.drop_first());
    }
}

proof fn lemma_plain_string(q: Seq<char>, i: int)
    requires
        1 <= i < q.len(),
        q.last() == '"',
        forall|k: int| 1 <= k < q.len() - 1 ==> q[k] != '"' && q[k] != '\\',
    ensures
        tokens_from(q, i, Some(q.subrange(1, i))) == seq![q.subrange(1, q.len() - 1)],
        tokens_from(q.drop_last(), i, Some(q.subrange(1, i))) == Seq::<Seq<char>>::empty(),
    decreases q.len() - i,
{
    if i == q.len() - 1 {
        assert(tokens_from(q, i + 1, None) == Seq::<Seq<char>>::empty());
        assert(tokens_from(q, i, Some(q.subrange(1, i))) == seq![q.subrange(1, q.len() - 1)]);
    } else {
        assert(q.subrange(1, i).push(q[i]) == q.subrange(1, i + 1));
        lemma_plain_string(q, i + 1);
    }
}

/// The tail of a trade message with a pair in which no character needs escaping.
pub open spec fn plain_tail(pair: Seq<char>) -> Seq<char> {
    seq![',', '"'] + pair + seq!['"', ']']
}

proof fn lemma_plain_tail(pair: Seq<char>)
    requires
        forall|k: int| 0 <= k < pair.len() ==> pair[k] != '"' && pair[k] != '\\',
    ensures
        trade_tail(plain_tail(pair)),
        tokens(tail_content(plain_tail(pair))) == seq![pair],
{
    let tail = plain_tail(pair);
    assert(crate::text::stripped(tail, false) == tail);
    let q = tail.subrange(1, tail.len() - 1);
    assert(q[0] == '"' && q.last() == '"');
    assert(crate::text::stripped(q, false) == q);
    assert forall|k: int| 1 <= k < q.len() - 1 implies q[k] != '"' && q[k] != '\\' by {
        assert(q[k] == pair[k - 1]);
    }
    assert(q.subrange(1, 1) == Seq::<char>::empty());
    lemma_plain_string(q, 1);
    assert(q.subrange(1, q.len() - 1) == pair);
    assert(tokens(q) == tokens_from(q, 1, Some(Seq::empty())));
    assert(tokens(q.drop_last()) == tokens_from(q.drop_last(), 1, Some(Seq::empty())));
}

proof fn lemma_no_later_mark(msg: Seq<char>, mark: Seq<char>, n: int, j: int)
    requires
        mark == seq!['"', 't', 'r', 'a', 'd', 'e', '"'],
        0 <= n,
        n + 11 <= msg.len(),
        msg.subrange(n, n + 7) == mark,
        msg[n + 7] == ',',
        msg[n + 8] == '"',
        msg[msg.len() - 2] == '"',
        msg[msg.len() - 1] == ']',
        forall|k: int| n + 9 <= k < msg.len() - 2 ==> msg[k] != '"',
        msg.subrange(n + 9, msg.len() - 2) != seq!['t', 'r', 'a', 'd', 'e'],
        j > n,
    ensures
        !crate::text::occurs_at(msg, mark, j),
{
    if crate::text::occurs_at(msg, mark, j) {
        let here = msg.subrange(n, n + 7);
        let at = msg.subrange(j, j + 7);
        assert forall|k: int| 0 <= k < 7 implies #[trigger] msg[j + k] == mark[k] && msg[n + k]
            == mark[k] by {
            assert(at[k] == msg[j + k]);
            assert(here[k] == msg[n + k]);
        }
        assert(msg[j + 0] == '"' && msg[j + 6] == '"');
        assert(msg[n + 1] == 't' && msg[n + 2] == 'r' && msg[n + 3] == 'a' && msg[n + 4] == 'd'
            && msg[n + 5] == 'e');
        assert(j == n + 8 || j == n + 6 || j == msg.len() - 2);
        assert(msg[j + 1] == 't');
        assert(j == n + 8);
        assert(j + 6 == msg.len() - 2);
        let pair = msg.subrange(n + 9, msg.len() - 2);
        assert(msg[j + 2] == 'r' && msg[j + 3] == 'a' && msg[j + 4] == 'd' && msg[j + 5] == 'e');
        assert(pair == seq!['t', 'r', 'a', 'd', 'e']);
    }
}

/// A message that ends with `"trade"`, a comma, a quoted pair and a bracket is a trade
/// message, and that pair is its pair.
pub proof fn law_trade_message(head: Seq<char>, pair: Seq<char>)
    requires
        forall|k: int| 0 <= k < pair.len() ==> pair[k] != '"' && pair[k] != '\\',
        pair != "trade"@,
    ensures
        ({
            let msg = head + "\"trade\""@ + plain_tail(pair);
            &&& pair_of(msg) == Some(pair)
            &&& trades_of(msg) == entry_trades(entries(msg), entries(msg).len() as int)
        }),
{
    let mark = "\"trade\""@;
    let msg = head + mark + plain_tail(pair);
    let n = head.len() as int;
    reveal_strlit("\"trade\"");
    reveal_strlit("trade");
    assert(mark == seq!['"', 't', 'r', 'a', 'd', 'e', '"']);
    assert("trade"@ == seq!['t', 'r', 'a', 'd', 'e']);
    assert(msg.subrange(n, n + 7) == mark);
    assert(crate::text::occurs_at(msg, mark, n));
    assert(msg.subrange(n + 9, msg.len() - 2) == pair);
    assert forall|k: int| n + 9 <= k < msg.len() - 2 implies msg[k] != '"' by {
        assert(msg[k] == pair[k - n - 9]);
    }
    crate::text::law_last(msg, mark);
    let i = crate::text::last(msg, mark)->0;
    if i > n {
        lemma_no_later_mark(msg, mark, n, i);
    }
    assert(i == n);
    assert(msg.skip(n + 7) == plain_tail(pair));
    lemma_plain_tail(pair);
}

/// A time with at most nine digits behind the point is the seconds and the nanoseconds
/// that its digits stand for.
pub proof fn law_timestamp_digits(sec: u64, frac: Seq<char>)
    requires
        frac.len() <= 9,
        crate::text::all_digits(frac),
    ensures
        kraken_ts(crate::text::decimal(sec as nat) + seq!['.'] + frac) == Some(
            ((sec * 1_000_000_000 + crate::text::digits_value(
                frac + crate::text::repeated('0', 9 - frac.len()),
            )) % 0x1_0000_0000_0000_0000) as u64,
        ),
{
    let head = crate::text::decimal(sec as nat);
    let s = head + seq!['.'] + frac;
    crate::text::lemma_decimal(sec as nat);
    crate::text::law_decimal_round_trip(sec);
    assert(s[head.len() as int] == '.');
    assert forall|k: int| 0 <= k < head.len() implies s[k] != '.' by {
        assert(crate::text::is_digit(head[k]));
    }
    crate::text::lemma_first_char(s, '.', head.len() as int);
    assert(s.take(head.len() as int) == head);
    assert(s.skip(head.len() as int + 1) == frac);
    let nano = frac + crate::text::repeated('0', 9 - frac.len());
    assert(nanoseconds_text(frac) == nano) by {
        if frac.len() == 9 {
            assert(frac.take(9) == frac);
            assert(nano == frac);
        }
    }
    assert(crate::text::all_digits(nano)) by {
        assert forall|i: int| 0 <= i < nano.len() implies crate::text::is_digit(
            #[trigger] nano[i],
        ) by {
            if i < frac.len() {
                assert(crate::text::is_digit(frac[i]));
            }
        }
    }
    crate::text::lemma_digits_bound(nano);
    assert(crate::text::is_digit(nano[0]));
    assert(crate::text::unsigned_part(nano) == nano);
}

// Messages as they are written.
/// A text in which nothing needs escaping and no bracket stands.
pub open spec fn plain(f: Seq<char>) -> bool {
    forall|k: int|
        0 <= k < f.len() ==> #[trigger] f[k] != '"' && f[k] != '\\' && f[k] != '[' && f[k] != ']'
}

/// A text between quotation marks.
pub open spec fn quoted(f: Seq<char>) -> Seq<char> {
    seq!['"'] + f + seq!['"']
}

/// The fields of an entry as they are written: each quoted, with commas between them.
pub open spec fn entry_text(fields: Seq<Seq<char>>) -> Seq<char>
    decreases fields.len(),
{
    if fields.len() == 0 {
        Seq::empty()
    } else if fields.len() == 1 {
        quoted(fields[0])
    } else {
        quoted(fields[0]) + seq![','] + entry_text(fields.drop_first())
    }
}

/// Entries as they are written: each in brackets, with commas between them.
pub open spec fn rows_text(rows: Seq<Seq<char>>) -> Seq<char>
    decreases rows.len(),
{
    if rows.len() == 0 {
        Seq::empty()
    } else if rows.len() == 1 {
        seq!['['] + rows[0] + seq![']']
    } else {
        seq!['['] + rows[0] + seq![']', ','] + rows_text(rows.drop_first())
    }
}

/// A trade message as it is written: the channel, the entries, and the pair.
pub open spec fn message_text(channel: Seq<char>, rows: Seq<Seq<Seq<char>>>, pair: Seq<char>) -> Seq<
    char,
> {
    seq!['['] + channel + seq![',', '['] + rows_text(
        Seq::new(rows.len(), |i: int| entry_text(rows[i])),
    ) + seq![']', ','] + "\"trade\""@ + plain_tail(pair)
}

proof fn lemma_inside_token(s: Seq<char>, i: int, f: Seq<char>, k: int)
    requires
        0 <= i,
        0 <= k <= f.len(),
        i + f.len() < s.len(),
        s.subrange(i, i + f.len()) == f,
        plain(f),
        s[i + f.len()] == '"',
    ensures
        tokens_from(s, i + k, Some(f.take(k))) == seq![f] + tokens_from(s, i + f.len() + 1, None),
    decreases f.len() - k,
{
    if k == f.len() {
        assert(f.take(k) == f);
    } else {
        assert(s[i + k] == s.subrange(i, i + f.len())[k]);
        assert(s[i + k] == f[k]);
        assert(f.take(k).push(f[k]) == f.take(k + 1));
        lemma_inside_token(s, i, f, k + 1);
    }
}

proof fn lemma_entry_tokens(front: Seq<char>, fields: Seq<Seq<char>>)
    requires
        forall|i: int| 0 <= i < fields.len() ==> plain(#[trigger] fields[i]),
    ensures
        tokens_from(front + entry_text(fields), front.len() as int, None) == fields,
    decreases fields.len(),
{
    let s = front + entry_text(fields);
    let n = front.len() as int;
    if fields.len() == 0 {
        assert(tokens_from(s, n, None) == fields);
    } else {
        let f = fields[0];
        assert(plain(fields[0]));
        assert(s[n] == '"');
        assert(s.subrange(n + 1, n + 1 + f.len()) == f);
        assert(s[n + 1 + f.len()] == '"');
        assert(f.take(0) == Seq::<char>::empty());
        lemma_inside_token(s, n + 1, f, 0);
        let m = n + f.len() + 2;
        assert(tokens_from(s, n, None) == seq![f] + tokens_from(s, m, None));
        if fields.len() == 1 {
            assert(m == s.len());
            assert(tokens_from(s, m, None) == Seq::<Seq<char>>::empty());
            assert(tokens_from(s, n, None) == fields);
        } else {
            let rest = fields.drop_first();
            assert forall|i: int| 0 <= i < rest.len() implies plain(#[trigger] rest[i]) by {
                assert(rest[i] == fields[i + 1]);
            }
            let next = front + quoted(f) + seq![','];
            assert(next + entry_text(rest) == s);
            assert(s[m] == ',');
            lemma_entry_tokens(next, rest);
            assert(tokens_from(s, m, None) == tokens_from(s, m + 1, None));
            assert(seq![f] + rest == fields);
        }
    }
}

proof fn lemma_entry_clean(fields: Seq<Seq<char>>)
    requires
        forall|i: int| 0 <= i < fields.len() ==> plain(#[trigger] fields[i]),
    ensures
        forall|k: int|
            0 <= k < entry_text(fields).len() ==> #[trigger] entry_text(fields)[k] != '['
                && entry_text(fields)[k] != ']',
    decreases fields.len(),
{
    if fields.len() > 0 {
        let f = fields[0];
        let rest = fields.drop_first();
        assert(plain(fields[0]));
        assert forall|i: int| 0 <= i < rest.len() implies plain(#[trigger] rest[i]) by {
            assert(rest[i] == fields[i + 1]);
        }
        lemma_entry_clean(rest);
        let t = entry_text(fields);
        assert forall|k: int| 0 <= k < t.len() implies #[trigger] t[k] != '[' && t[k] != ']' by {
            if 0 < k <= f.len() {
                assert(t[k] == f[k - 1]);
            } else if k > f.len() + 2 {
                assert(t[k] == entry_text(rest)[k - f.len() - 3]);
            }
        }
    }
}

proof fn lemma_bracketed_skip(s: Seq<char>, i: int)
    requires
        0 <= i < s.len(),
        s[i] != '[',
    ensures
        bracketed(s, i) == bracketed(s, i + 1),
{
    let one = seq!['['];
    assert(s.subrange(i, i + 1)[0] == s[i]);
    assert(!crate::text::occurs_at(s, one, i));
    assert(crate::text::first_from(s, one, i) == crate::text::first_from(s, one, i + 1));
    lemma_first_from_bounds(s, one, i + 1);
}

proof fn lemma_rows_bracketed(front: Seq<char>, rows: Seq<Seq<char>>, tail: Seq<char>)
    requires
        forall|i: int, k: int|
            0 <= i < rows.len() && 0 <= k < rows[i].len() ==> #[trigger] rows[i][k] != ']',
        forall|k: int| 0 <= k < tail.len() ==> #[trigger] tail[k] != '[',
    ensures
        bracketed(front + rows_text(rows) + tail, front.len() as int) == rows,
    decreases rows.len(),
{
    let s = front + rows_text(rows) + tail;
    let n = front.len() as int;
    if rows.len() == 0 {
        assert forall|k: int| n <= k < s.len() implies s[k] != '[' by {
            assert(s[k] == tail[k - n]);
        }
        crate::text::lemma_no_char_from(s, '[', n);
        assert(bracketed(s, n) == rows);
    } else {
        let r = rows[0];
        let m = r.len() as int;
        assert(s[n] == '[');
        assert(s[n + 1 + m] == ']');
        assert forall|k: int| n + 1 <= k < n + 1 + m implies s[k] != ']' by {
            assert(s[k] == r[k - n - 1]);
            assert(rows[0][k - n - 1] != ']');
        }
        crate::text::lemma_first_char_from(s, '[', n, n);
        crate::text::lemma_first_char_from(s, ']', n + 1, n + 1 + m);
        assert(s.subrange(n + 1, n + 1 + m) == r);
        assert(bracketed(s, n) == seq![r] + bracketed(s, n + m + 2));
        let rest = rows.drop_first();
        assert forall|i: int, k: int|
            0 <= i < rest.len() && 0 <= k < rest[i].len() implies #[trigger] rest[i][k] != ']' by {
            assert(rows[i + 1][k] != ']');
        }
        let row = seq!['['] + r + seq![']'];
        if rows.len() == 1 {
            assert(front + row + rows_text(rest) + tail == s);
            lemma_rows_bracketed(front + row, rest, tail);
        } else {
            assert(s[n + m + 2] == ',');
            assert(front + row + seq![','] + rows_text(rest) + tail == s);
            lemma_rows_bracketed(front + row + seq![','], rest, tail);
            lemma_bracketed_skip(s, n + m + 2);
        }
        assert(seq![r] + rest == rows);
    }
}

proof fn lemma_rows_begin(rows: Seq<Seq<char>>)
    requires
        rows.len() > 0,
    ensures
        rows_text(rows).len() >= 2,
        rows_text(rows)[0] == '[',
{
}

proof fn lemma_entries(head: Seq<char>, rows: Seq<Seq<char>>, tail: Seq<char>)
    requires
        rows.len() > 0,
        forall|i: int, k: int|
            0 <= i < rows.len() && 0 <= k < rows[i].len() ==> #[trigger] rows[i][k] != ']',
        forall|k: int| 0 <= k < tail.len() ==> #[trigger] tail[k] != '[',
        forall|j: int|
            0 <= j < head.len() ==> !(#[trigger] head[j] == '[' && (j + 1 == head.len() || head[j
                + 1] == '[')),
    ensures
        entries(head + seq!['['] + rows_text(rows) + tail) == rows,
{
    let front = head + seq!['['];
    let s = front + rows_text(rows) + tail;
    let n = head.len() as int;
    let mark = "[["@;
    reveal_strlit("[[");
    assert(mark == seq!['[', '[']);
    lemma_rows_begin(rows);
    assert(s[n] == '[' && s[n + 1] == '[');
    assert(s.subrange(n, n + 2) == mark);
    assert(crate::text::occurs_at(s, mark, n));
    crate::text::law_first(s, mark);
    let p = crate::text::first(s, mark)->0;
    if p < n {
        let at = s.subrange(p, p + 2);
        assert(at[0] == s[p] && at[1] == s[p + 1]);
        assert(head[p] == s[p]);
        if p + 1 < n {
            assert(head[p + 1] == s[p + 1]);
        }
    }
    assert(p == n);
    lemma_rows_bracketed(front, rows, tail);
}

/// What one entry of four or more fields says.
pub open spec fn says(t: TradeView, fields: Seq<Seq<char>>) -> bool {
    &&& t.price == fields[0]
    &&& t.volume == fields[1]
    &&& kraken_ts(fields[2]) == Some(t.time_ns)
    &&& t.sell <==> fields[3].len() > 0 && fields[3][0] == 's'
}

/// Fields that make a trade: at least four, with a number as price and as volume, and a
/// time.
pub open spec fn sound_fields(fields: Seq<Seq<char>>) -> bool {
    &&& fields.len() >= 4
    &&& forall|k: int| 0 <= k < fields.len() ==> plain(#[trigger] fields[k])
    &&& crate::text::is_float_text(fields[0])
    &&& crate::text::is_float_text(fields[1])
    &&& kraken_ts(fields[2]) is Some
}

/// A trade message reads back as what was written: one trade for each entry, in order, with
/// the price, the volume, the time and the side of that entry, however many there are.
pub proof fn law_trades_round_trip(
    channel: Seq<char>,
    rows: Seq<Seq<Seq<char>>>,
    pair: Seq<char>,
)
    requires
        rows.len() > 0,
        forall|i: int| 0 <= i < rows.len() ==> sound_fields(#[trigger] rows[i]),
        forall|k: int| 0 <= k < channel.len() ==> #[trigger] channel[k] != '[',
        plain(pair),
        pair != "trade"@,
    ensures
        ({
            let msg = message_text(channel, rows, pair);
            &&& pair_of(msg) == Some(pair)
            &&& trades_of(msg).len() == rows.len()
            &&& forall|i: int| 0 <= i < rows.len() ==> says(#[trigger] trades_of(msg)[i], rows[i])
        }),
{
    let texts = Seq::new(rows.len(), |i: int| entry_text(rows[i]));
    let msg = message_text(channel, rows, pair);
    let head = seq!['['] + channel + seq![','];
    let tail = seq![']', ','] + "\"trade\""@ + plain_tail(pair);
    reveal_strlit("\"trade\"");
    assert(msg == head + seq!['['] + rows_text(texts) + tail);
    assert(msg == (head + seq!['['] + rows_text(texts) + seq![']', ',']) + "\"trade\""@
        + plain_tail(pair));
    law_trade_message(head + seq!['['] + rows_text(texts) + seq![']', ','], pair);
    assert forall|i: int, k: int| 0 <= i < texts.len() && 0 <= k < texts[i].len() implies
        #[trigger] texts[i][k] != ']' by {
        assert(sound_fields(rows[i]));
        lemma_entry_clean(rows[i]);
    }
    assert forall|k: int| 0 <= k < tail.len() implies #[trigger] tail[k] != '[' by {
        let t = "\"trade\""@;
        if 2 <= k < 9 {
            assert(tail[k] == t[k - 2]);
        } else if 11 <= k < 11 + pair.len() {
            assert(tail[k] == pair[k - 11]);
        }
    }
    assert forall|j: int| 0 <= j < head.len() implies !(#[trigger] head[j] == '[' && (j + 1
        == head.len() || head[j + 1] == '[')) by {
        if 0 < j <= channel.len() {
            assert(head[j] == channel[j - 1]);
        } else if j == 0 && channel.len() > 0 {
            assert(head[1] == channel[0]);
        }
    }
    lemma_entries(head, texts, tail);
    assert forall|i: int| 0 <= i < texts.len() implies tokens(#[trigger] texts[i]) == rows[i] by {
        assert(sound_fields(rows[i]));
        lemma_entry_tokens(Seq::empty(), rows[i]);
        assert(Seq::<char>::empty() + entry_text(rows[i]) == texts[i]);
    }
    law_no_entry_is_lost(texts);
    assert forall|i: int| 0 <= i < rows.len() implies says(
        #[trigger] trades_of(msg)[i],
        rows[i],
    ) by {
        assert(sound_fields(rows[i]));
        assert(entry_trade(texts[i]) is Some);
        assert(tokens(texts[i]) == rows[i]);
    }
}

/// If every entry makes a trade, there are as many trades as entries, and each is that of
/// its entry.
pub proof fn law_no_entry_is_lost(e: Seq<Seq<char>>)
    ensures
        (forall|i: int| 0 <= i < e.len() ==> entry_trade(#[trigger] e[i]) is Some) ==> entry_trades(
            e,
            e.len() as int,
        ).len() == e.len() && forall|i: int|
            0 <= i < e.len() ==> Some(#[trigger] entry_trades(e, e.len() as int)[i]) == entry_trade(
                e[i],
            ),
{
    if forall|i: int| 0 <= i < e.len() ==> entry_trade(#[trigger] e[i]) is Some {
        lemma_all_entries(e, e.len() as int);
    }
}

proof fn lemma_all_entries(e: Seq<Seq<char>>, n: int)
    requires
        0 <= n <= e.len(),
        forall|i: int| 0 <= i < e.len() ==> entry_trade(#[trigger] e[i]) is Some,
    ensures
        entry_trades(e, n).len() == n,
        forall|i: int| 0 <= i < n ==> Some(#[trigger] entry_trades(e, n)[i]) == entry_trade(e[i]),
    decreases n,
{
    if n > 0 {
        lemma_all_entries(e, n - 1);
        assert(entry_trade(e[n - 1]) is Some);
    }
}

/// A malformed entry is left out and takes nothing else with it: the trades of a trade
/// message are those of its well-formed entries, in order.
pub proof fn law_trades_are_those_of_entries(msg: Seq<char>)
    requires
        pair_of(msg) is Some,
    ensures
        trades_of(msg) == entries(msg).filter(
            |e: Seq<char>| entry_trade(e) is Some,
        ).map_values(|e: Seq<char>| entry_trade(e)->0),
{
    let e = entries(msg);
    lemma_entry_filter(e, e.len() as int);
    assert(e.take(e.len() as int) == e);
}

proof fn lemma_entry_filter(e: Seq<Seq<char>>, n: int)
    requires
        0 <= n <= e.len(),
    ensures
        entry_trades(e, n) == e.take(n).filter(
            |e: Seq<char>| entry_trade(e) is Some,
        ).map_values(|e: Seq<char>| entry_trade(e)->0),
    decreases n,
{
    reveal(Seq::filter);
    let p = |e: Seq<char>| entry_trade(e) is Some;
    let g = |e: Seq<char>| entry_trade(e)->0;
    if n > 0 {
        lemma_entry_filter(e, n - 1);
        assert(e.take(n).drop_last() == e.take(n - 1));
        let before = e.take(n - 1).filter(p);
        if entry_trade(e[n - 1]) is Some {
            assert(e.take(n).filter(p) == before.push(e[n - 1]));
            assert(before.push(e[n - 1]).map_values(g) == before.map_values(g).push(
                g(e[n - 1]),
            ));
        } else {
            assert(e.take(n).filter(p) == before);
        }
    } else {
        assert(e.take(0) == Seq::<Seq<char>>::empty());
        assert(e.take(0).filter(p).map_values(g) == Seq::<TradeView>::empty());
    }
}

/// An entry with fewer than four fields, or without a number as its price or its volume, or
/// without a time, makes no trade.
pub proof fn law_malformed_entries(fields: Seq<Seq<char>>)
    requires
        forall|k: int| 0 <= k < fields.len() ==> plain(#[trigger] fields[k]),
    ensures
        fields.len() < 4 ==> entry_trade(entry_text(fields)) is None,
        fields.len() >= 4 && !crate::text::is_float_text(fields[0]) ==> entry_trade(
            entry_text(fields),
        ) is None,
        fields.len() >= 4 && !crate::text::is_float_text(fields[1]) ==> entry_trade(
            entry_text(fields),
        ) is None,
        fields.len() >= 4 && kraken_ts(fields[2]) is None ==> entry_trade(entry_text(fields)) is None,
{
    lemma_entry_tokens(Seq::empty(), fields);
    assert(Seq::<char>::empty() + entry_text(fields) == entry_text(fields));
}

/// In a quoted string, a backslash stands for the character behind it: a quotation mark
/// there does not end the string.
pub proof fn law_escapes(a: Seq<char>, c: char, b: Seq<char>)
    requires
        plain(a),
        plain(b),
    ensures
        tokens(seq!['"'] + a + seq!['\\', c] + b + seq!['"']) == seq![a.push(c) + b],
{
    let s = seq!['"'] + a + seq!['\\', c] + b + seq!['"'];
    let n = a.len() as int;
    assert(s.subrange(1, 1 + n) == a);
    assert(s.subrange(3 + n, 3 + n + b.len()) == b);
    lemma_reads_plain(s, 1, Seq::empty(), a, 0);
    assert(Seq::<char>::empty() + a.take(0) == Seq::<char>::empty());
    assert(Seq::<char>::empty() + a == a);
    assert(s[0] == '"');
    assert(s[1 + n] == '\\' && s[2 + n] == c);
    assert(tokens(s) == tokens_from(s, 1 + n, Some(a)));
    assert(tokens(s) == tokens_from(s, 3 + n, Some(a.push(c))));
    lemma_reads_plain(s, 3 + n, a.push(c), b, 0);
    assert(a.push(c) + b.take(0) == a.push(c));
    let m = s.len() - 1;
    assert(s[m] == '"');
    assert(tokens_from(s, m + 1, None) == Seq::<Seq<char>>::empty());
    assert(tokens(s) == seq![a.push(c) + b]);
}

proof fn lemma_reads_plain(s: Seq<char>, i: int, read: Seq<char>, f: Seq<char>, k: int)
    requires
        0 <= i,
        0 <= k <= f.len(),
        i + f.len() <= s.len(),
        s.subrange(i, i + f.len()) == f,
        plain(f),
    ensures
        tokens_from(s, i + k, Some(read + f.take(k))) == tokens_from(
            s,
            i + f.len(),
            Some(read + f),
        ),
    decreases f.len() - k,
{
    if k == f.len() {
        assert(f.take(k) == f);
    } else {
        assert(s[i + k] == s.subrange(i, i + f.len())[k]);
        assert(s[i + k] == f[k]);
        assert((read + f.take(k)).push(f[k]) == read + f.take(k + 1));
        lemma_reads_plain(s, i, read, f, k + 1);
    }
}

// Times.
/// A time without a point is a number of whole seconds.
pub proof fn law_timestamp_whole_seconds(sec: u64)
    ensures
        kraken_ts(crate::text::decimal(sec as nat)) == Some(
            ((sec * 1_000_000_000) % 0x1_0000_0000_0000_0000) as u64,
        ),
{
    let s = crate::text::decimal(sec as nat);
    crate::text::lemma_decimal(sec as nat);
    crate::text::law_decimal_round_trip(sec);
    assert forall|k: int| 0 <= k < s.len() implies s[k] != '.' by {
        assert(crate::text::is_digit(s[k]));
    }
    crate::text::lemma_no_char(s, '.');
    let zeros = Seq::<char>::empty() + crate::text::repeated('0', 9);
    assert(nanoseconds_text(Seq::empty()) == zeros);
    assert forall|i: int| 0 <= i < zeros.len() implies crate::text::is_digit(
        #[trigger] zeros[i],
    ) by {
    }
    lemma_zeros(zeros);
    assert(crate::text::is_digit(zeros[0]));
    assert(crate::text::unsigned_part(zeros) == zeros);
}

proof fn lemma_zeros(z: Seq<char>)
    requires
        forall|i: int| 0 <= i < z.len() ==> #[trigger] z[i] == '0',
    ensures
        crate::text::digits_value(z) == 0,
    decreases z.len(),
{
    if z.len() > 0 {
        let h = z.drop_last();
        assert forall|i: int| 0 <= i < h.len() implies #[trigger] h[i] == '0' by {
            assert(h[i] == z[i]);
        }
        lemma_zeros(h);
        assert(z[z.len() - 1] == '0');
    }
}

/// Digits behind the ninth place of a fraction do not count.
pub proof fn law_timestamp_cut_to_nanoseconds(sec: u64, frac: Seq<char>, rest: Seq<char>)
    requires
        frac.len() == 9,
    ensures
        kraken_ts(crate::text::decimal(sec as nat) + seq!['.'] + frac + rest) == kraken_ts(
            crate::text::decimal(sec as nat) + seq!['.'] + frac,
        ),
{
    let head = crate::text::decimal(sec as nat);
    let n = head.len() as int;
    let s = head + seq!['.'] + frac;
    let t = s + rest;
    crate::text::lemma_decimal(sec as nat);
    assert forall|k: int| 0 <= k < n implies s[k] != '.' && t[k] != '.' by {
        assert(crate::text::is_digit(head[k]));
    }
    crate::text::lemma_first_char(s, '.', n);
    crate::text::lemma_first_char(t, '.', n);
    assert(s.take(n) == head && t.take(n) == head);
    assert(s.skip(n + 1) == frac);
    assert(t.skip(n + 1) == frac + rest);
    assert((frac + rest).take(9) == frac);
    assert(frac.take(9) == frac);
}

// Pages of history.
/// If every entry of a page makes a trade, there are as many trades as entries, and each is
/// that of its entry.
pub proof fn law_no_past_entry_is_lost(body: Seq<char>)
    ensures
        past_trades_of(body) == entries(body).filter(
            |e: Seq<char>| entry_past_trade(e) is Some,
        ).map_values(|e: Seq<char>| entry_past_trade(e)->0),
{
    let e = entries(body);
    lemma_past_entry_filter(e, e.len() as int);
    assert(e.take(e.len() as int) == e);
}

proof fn lemma_past_entry_filter(e: Seq<Seq<char>>, n: int)
    requires
        0 <= n <= e.len(),
    ensures
        entry_past_trades(e, n) == e.take(n).filter(
            |e: Seq<char>| entry_past_trade(e) is Some,
        ).map_values(|e: Seq<char>| entry_past_trade(e)->0),
    decreases n,
{
    reveal(Seq::filter);
    let p = |e: Seq<char>| entry_past_trade(e) is Some;
    let g = |e: Seq<char>| entry_past_trade(e)->0;
    if n > 0 {
        lemma_past_entry_filter(e, n - 1);
        assert(e.take(n).drop_last() == e.take(n - 1));
        let before = e.take(n - 1).filter(p);
        if entry_past_trade(e[n - 1]) is Some {
            assert(e.take(n).filter(p) == before.push(e[n - 1]));
            assert(before.push(e[n - 1]).map_values(g) == before.map_values(g).push(
                g(e[n - 1]),
            ));
        } else {
            assert(e.take(n).filter(p) == before);
        }
    } else {
        assert(e.take(0) == Seq::<Seq<char>>::empty());
        assert(e.take(0).filter(p).map_values(g) == Seq::<PastTradeView>::empty());
    }
}

/// A number as it is written in a page: nothing that is taken off a field, and no comma or
/// bracket.
pub open spec fn bare_number(f: Seq<char>) -> bool {
    &&& f.len() > 0
    &&& crate::text::is_float_text(f)
    &&& forall|k: int|
        0 <= k < f.len() ==> #[trigger] f[k] != ',' && f[k] != '"' && f[k] != '[' && f[k] != ']'
            && !crate::text::white(f[k])
}

/// A trade of history as it is written: price and volume are quoted, the time is not, the
/// side is a quoted letter, and further fields follow.
pub open spec fn past_row(t: PastTradeView, rest: Seq<Seq<char>>) -> Seq<char> {
    crate::text::joined(
        seq![
            quoted(t.price),
            quoted(t.volume),
            t.time,
            quoted(
                if t.sell {
                    seq!['s']
                } else {
                    seq!['b']
                },
            ),
        ] + rest,
        ',',
    )
}

/// Fields in which no comma and no bracket stands.
pub open spec fn clean_fields(f: Seq<Seq<char>>) -> bool {
    forall|i: int, k: int|
        0 <= i < f.len() && 0 <= k < f[i].len() ==> #[trigger] f[i][k] != ',' && f[i][k] != '['
            && f[i][k] != ']'
}

proof fn lemma_bare_quoted(x: Seq<char>)
    requires
        x.len() > 0,
        forall|k: int| 0 <= k < x.len() ==> #[trigger] x[k] != '"',
    ensures
        bare(quoted(x)) == x,
{
    let q = quoted(x);
    let none = Seq::<char>::empty();
    let mark = seq!['"'];
    assert(none + q + none == q);
    assert(q[0] == '"' && q.last() == '"');
    crate::text::law_stripped(none, q, none, false);
    assert(x[0] != '"' && x[x.len() - 1] != '"');
    crate::text::law_stripped(mark, x, mark, true);
}

proof fn lemma_bare_number(x: Seq<char>)
    requires
        bare_number(x),
    ensures
        bare(x) == x,
{
    let none = Seq::<char>::empty();
    assert(none + x + none == x);
    assert(x[0] != '"' && x[x.len() - 1] != '"');
    crate::text::law_stripped(none, x, none, false);
    crate::text::law_stripped(none, x, none, true);
}

proof fn lemma_joined_clean(f: Seq<Seq<char>>)
    requires
        clean_fields(f),
    ensures
        forall|k: int|
            0 <= k < crate::text::joined(f, ',').len() ==> #[trigger] crate::text::joined(
                f,
                ',',
            )[k] != '[' && crate::text::joined(f, ',')[k] != ']',
    decreases f.len(),
{
    if f.len() > 0 {
        let rest = f.drop_first();
        let s = crate::text::joined(f, ',');
        assert forall|i: int, k: int| 0 <= i < rest.len() && 0 <= k < rest[i].len() implies
            #[trigger] rest[i][k] != ',' && rest[i][k] != '[' && rest[i][k] != ']' by {
            assert(f[i + 1][k] == rest[i][k]);
        }
        lemma_joined_clean(rest);
        assert forall|k: int| 0 <= k < s.len() implies #[trigger] s[k] != '[' && s[k] != ']' by {
            if k < f[0].len() {
                assert(s[k] == f[0][k]);
            } else if k > f[0].len() {
                assert(s[k] == crate::text::joined(rest, ',')[k - f[0].len() - 1]);
            }
        }
    }
}

proof fn lemma_past_row(t: PastTradeView, rest: Seq<Seq<char>>)
    requires
        bare_number(t.price),
        bare_number(t.volume),
        bare_number(t.time),
        clean_fields(rest),
    ensures
        entry_past_trade(past_row(t, rest)) == Some(t),
        forall|k: int| 0 <= k < past_row(t, rest).len() ==> #[trigger] past_row(t, rest)[k] != ']',
{
    let letter = if t.sell {
        seq!['s']
    } else {
        seq!['b']
    };
    let first = seq![quoted(t.price), quoted(t.volume), t.time, quoted(letter)];
    let f = first + rest;
    assert forall|i: int, k: int| 0 <= i < f.len() && 0 <= k < f[i].len() implies #[trigger] f[i][k]
        != ',' && f[i][k] != '[' && f[i][k] != ']' by {
        if i == 0 {
            if 0 < k < f[0].len() - 1 {
                assert(f[0][k] == t.price[k - 1]);
            }
        } else if i == 1 {
            if 0 < k < f[1].len() - 1 {
                assert(f[1][k] == t.volume[k - 1]);
            }
        } else if i == 2 {
            assert(f[2][k] == t.time[k]);
        } else if i == 3 {
            assert(f[3] == quoted(letter));
        } else {
            assert(f[i][k] == rest[i - 4][k]);
        }
    }
    assert forall|i: int| 0 <= i < f.len() implies !(#[trigger] f[i]).contains(',') by {
        if f[i].contains(',') {
            let k = choose|k: int| 0 <= k < f[i].len() && f[i][k] == ',';
            assert(f[i][k] != ',');
        }
    }
    crate::text::law_split_undoes_joining(f, ',');
    lemma_joined_clean(f);
    lemma_bare_quoted(t.price);
    lemma_bare_quoted(t.volume);
    lemma_bare_number(t.time);
    lemma_bare_quoted(letter);
    assert(f[0] == quoted(t.price) && f[1] == quoted(t.volume) && f[2] == t.time && f[3] == quoted(
        letter,
    ));
}

/// A page of history reads back as what was written: every trade of it, in order, with its
/// price, volume, time and side. `head` is what stands before the trades and `tail` what
/// stands behind them.
pub proof fn law_page_round_trip(
    head: Seq<char>,
    trades: Seq<PastTradeView>,
    rest: Seq<Seq<char>>,
    tail: Seq<char>,
)
    requires
        trades.len() > 0,
        clean_fields(rest),
        forall|i: int|
            0 <= i < trades.len() ==> bare_number((#[trigger] trades[i]).price) && bare_number(
                trades[i].volume,
            ) && bare_number(trades[i].time),
        forall|k: int| 0 <= k < tail.len() ==> #[trigger] tail[k] != '[',
        forall|j: int|
            0 <= j < head.len() ==> !(#[trigger] head[j] == '[' && (j + 1 == head.len() || head[j
                + 1] == '[')),
    ensures
        past_trades_of(
            head + seq!['['] + rows_text(
                Seq::new(trades.len(), |i: int| past_row(trades[i], rest)),
            ) + tail,
        ) == trades,
{
    let rows = Seq::new(trades.len(), |i: int| past_row(trades[i], rest));
    let body = head + seq!['['] + rows_text(rows) + tail;
    assert forall|i: int, k: int| 0 <= i < rows.len() && 0 <= k < rows[i].len() implies
        #[trigger] rows[i][k] != ']' by {
        assert(bare_number(trades[i].price));
        lemma_past_row(trades[i], rest);
    }
    lemma_entries(head, rows, tail);
    lemma_past_entries(rows, trades, rest, rows.len() as int);
    assert(past_trades_of(body) == trades.take(trades.len() as int));
    assert(trades.take(trades.len() as int) == trades);
}

proof fn lemma_past_entries(
    rows: Seq<Seq<char>>,
    trades: Seq<PastTradeView>,
    rest: Seq<Seq<char>>,
    n: int,
)
    requires
        0 <= n <= trades.len(),
        rows == Seq::new(trades.len(), |i: int| past_row(trades[i], rest)),
        clean_fields(rest),
        forall|i: int|
            0 <= i < trades.len() ==> bare_number((#[trigger] trades[i]).price) && bare_number(
                trades[i].volume,
            ) && bare_number(trades[i].time),
    ensures
        entry_past_trades(rows, n) == trades.take(n),
    decreases n,
{
    if n > 0 {
        lemma_past_entries(rows, trades, rest, n - 1);
        assert(bare_number(trades[n - 1].price));
        lemma_past_row(trades[n - 1], rest);
        assert(rows[n - 1] == past_row(trades[n - 1], rest));
        assert(trades.take(n - 1).push(trades[n - 1]) == trades.take(n));
    } else {
        assert(entry_past_trades(rows, 0) == trades.take(0));
    }
}

/// The cursor of a page is what stands between quotation marks behind the first `"last":`;
/// a page without one has none.
pub proof fn law_cursor_is_read(before: Seq<char>, cursor: Seq<char>, after: Seq<char>)
    requires
        !cursor.contains('"'),
        forall|j: int|
            0 <= j < before.len() ==> !#[trigger] crate::text::occurs_at(
                before + "\"last\":\""@ + cursor + seq!['"'] + after,
                "\"last\":\""@,
                j,
            ),
    ensures
        cursor_of(before + "\"last\":\""@ + cursor + seq!['"'] + after) == cursor,
{
    let mark = "\"last\":\""@;
    let body = before + mark + cursor + seq!['"'] + after;
    let n = before.len() as int;
    reveal_strlit("\"last\":\"");
    assert(body.subrange(n, n + 8) == mark);
    assert(crate::text::occurs_at(body, mark, n));
    crate::text::law_first(body, mark);
    let i = crate::text::first(body, mark)->0;
    assert(i == n);
    let tail = body.skip(n + 8);
    let m = cursor.len() as int;
    assert(tail == cursor + seq!['"'] + after);
    assert(tail[m] == '"');
    assert forall|k: int| 0 <= k < m implies tail[k] != '"' by {
        assert(tail[k] == cursor[k]);
        assert(cursor.contains(cursor[k]));
    }
    crate::text::lemma_first_char(tail, '"', m);
    assert(tail.take(m) == cursor);
    assert(crate::text::split(tail, '"')[0] == cursor);
}

/// A page without a cursor has an empty one.
pub proof fn law_no_cursor(body: Seq<char>)
    requires
        forall|j: int| !#[trigger] crate::text::occurs_at(body, "\"last\":\""@, j),
    ensures
        cursor_of(body) == Seq::<char>::empty(),
{
    crate::text::law_first(body, "\"last\":\""@);
}

/// A string that is not closed is left out, and so is everything outside of strings.
pub proof fn law_open_strings(a: Seq<char>, b: Seq<char>)
    requires
        plain(a),
        plain(b),
    ensures
        tokens(a) == Seq::<Seq<char>>::empty(),
        tokens(seq!['"'] + a) == Seq::<Seq<char>>::empty(),
        tokens(a + quoted(b) + a) == seq![b],
{
    assert(a.take(a.len() as int) == a);
    lemma_outside(a, a, 0);
    let s = seq!['"'] + a;
    assert(s.subrange(1, 1 + a.len() as int) == a);
    lemma_reads_plain(s, 1, Seq::empty(), a, 0);
    assert(Seq::<char>::empty() + a.take(0) == Seq::<char>::empty());
    assert(tokens(s) == tokens_from(s, 1, Some(Seq::empty())));
    let t = a + quoted(b) + a;
    let n = a.len() as int;
    assert(t.take(n) == a);
    lemma_outside(t, a, 0);
    assert(t.subrange(n + 1, n + 1 + b.len()) == b);
    assert(b.take(0) == Seq::<char>::empty());
    lemma_inside_token(t, n + 1, b, 0);
    assert(t[n] == '"');
    let m = n + b.len() + 2;
    lemma_outside_back(t, m);
    assert(tokens(t) == seq![b] + Seq::<Seq<char>>::empty());
    assert(tokens(t) == seq![b]);
}

proof fn lemma_outside(s: Seq<char>, a: Seq<char>, k: int)
    requires
        0 <= k <= a.len() <= s.len(),
        s.take(a.len() as int) == a,
        plain(a),
    ensures
        tokens_from(s, k, None) == tokens_from(s, a.len() as int, None),
    decreases a.len() - k,
{
    if k < a.len() {
        assert(s[k] == s.take(a.len() as int)[k]);
        assert(a[k] != '"');
        lemma_outside(s, a, k + 1);
    }
}

proof fn lemma_outside_back(s: Seq<char>, k: int)
    requires
        0 <= k <= s.len(),
        forall|i: int| k <= i < s.len() ==> #[trigger] s[i] != '"',
    ensures
        tokens_from(s, k, None) == Seq::<Seq<char>>::empty(),
    decreases s.len() - k,
{
    if k < s.len() {
        assert(s[k] != '"');
        lemma_outside_back(s, k + 1);
    }
}

/// A time that does not begin with a number of seconds, or has anything but digits among the
/// first nine places of its fraction, is none.
pub proof fn law_malformed_times(sec: u64, frac: Seq<char>, i: int, s: Seq<char>)
    requires
        0 <= i < frac.len(),
        i < 9,
        !crate::text::is_digit(frac[i]),
        i == 0 ==> frac[0] != '+',
    ensures
        kraken_ts(crate::text::decimal(sec as nat) + seq!['.'] + frac) is None,
        s.len() == 0 ==> kraken_ts(s) is None,
        s.len() > 0 && !crate::text::is_digit(s[0]) && s[0] != '+' ==> kraken_ts(s) is None,
{
    let head = crate::text::decimal(sec as nat);
    let n = head.len() as int;
    let t = head + seq!['.'] + frac;
    crate::text::lemma_decimal(sec as nat);
    assert forall|k: int| 0 <= k < n implies t[k] != '.' by {
        assert(crate::text::is_digit(head[k]));
    }
    crate::text::lemma_first_char(t, '.', n);
    assert(t.skip(n + 1) == frac);
    let nano = nanoseconds_text(frac);
    assert(nano[i] == frac[i]);
    crate::text::law_unsigned_numbers(nano);
    crate::text::law_first(s, seq!['.']);
    match crate::text::first(s, seq!['.']) {
        Some(p) => {
            assert(s.subrange(p, p + 1)[0] == s[p]);
            crate::text::law_unsigned_numbers(s.take(p));
        },
        None => {
            crate::text::law_unsigned_numbers(s);
        },
    }
}

/// Blanks between the parts of a message's tail do not count.
pub proof fn law_blanks_in_the_tail(
    a: Seq<char>,
    b: Seq<char>,
    pair: Seq<char>,
    c: Seq<char>,
    d: Seq<char>,
)
    requires
        plain(pair),
        forall|k: int| 0 <= k < a.len() ==> crate::text::white(#[trigger] a[k]),
        forall|k: int| 0 <= k < b.len() ==> crate::text::white(#[trigger] b[k]),
        forall|k: int| 0 <= k < c.len() ==> crate::text::white(#[trigger] c[k]),
        forall|k: int| 0 <= k < d.len() ==> crate::text::white(#[trigger] d[k]),
    ensures
        trade_tail(a + (seq![','] + b + quoted(pair) + c + seq![']']) + d),
        tokens(tail_content(a + (seq![','] + b + quoted(pair) + c + seq![']']) + d)) == seq![pair],
{
    let m = seq![','] + b + quoted(pair) + c + seq![']'];
    let tail = a + m + d;
    let q = quoted(pair);
    crate::text::law_stripped(a, m, d, false);
    assert(m.subrange(1, m.len() - 1) == b + q + c);
    assert(q[0] == '"' && q.last() == '"');
    crate::text::law_stripped(b, q, c, false);
    assert(tail_content(tail) == q);
    assert forall|k: int| 1 <= k < q.len() - 1 implies q[k] != '"' && q[k] != '\\' by {
        assert(q[k] == pair[k - 1]);
    }
    assert(q.subrange(1, 1) == Seq::<char>::empty());
    lemma_plain_string(q, 1);
    assert(q.subrange(1, q.len() - 1) == pair);
    assert(tokens(q) == tokens_from(q, 1, Some(Seq::empty())));
    assert(tokens(q.drop_last()) == tokens_from(q.drop_last(), 1, Some(Seq::empty())));
}

} // verus!
