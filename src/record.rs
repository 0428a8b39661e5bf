//! The configuration record grammar: `"<keystroke>" <context> <scope> <action name...>`.

use crate::text::{
    all_digits, chars_of, decimal, is_space, is_word, join_words, lemma_decimal, lemma_join_push,
    lemma_parse_decimal, lemma_words_of_join, signed_decimal, parse_signed, parse_signed_at, parse_unsigned,
    parse_unsigned_at, spans_text, split_words, trim, trim_bounds, words,
};
use crate::host::DBConfigurationItem;
use vstd::prelude::*;

verus! {

/// Why a configuration record could not be read.
#[derive(Debug, Clone, Copy, PartialEq, Eq, Structural)]
pub enum LineError {
    NoOpeningQuote,
    NoClosingQuote,
    MissingContext,
    BadContext,
    MissingScope,
    BadScope,
    MissingAction,
}

impl LineError {
    /// The text that reports this error.
    pub open spec fn text(self) -> Seq<char> {
        match self {
            LineError::NoOpeningQuote => "line must start with a double quote for keystroke"@,
            LineError::NoClosingQuote => "missing closing quote for keystroke"@,
            LineError::MissingContext => "missing context number"@,
            LineError::BadContext => "context number is not a valid integer"@,
            LineError::MissingScope => "missing scope number"@,
            LineError::BadScope => "scope number is not a valid integer"@,
            LineError::MissingAction => "missing action name"@,
        }
    }

    /// The text that reports this error.
    pub fn message(&self) -> (r: String)
        ensures
            r@ == self.text(),
    {
        match self {
            LineError::NoOpeningQuote => String::from_str(
                "line must start with a double quote for keystroke",
            ),
            LineError::NoClosingQuote => String::from_str("missing closing quote for keystroke"),
            LineError::MissingContext => String::from_str("missing context number"),
            LineError::BadContext => String::from_str("context number is not a valid integer"),
            LineError::MissingScope => String::from_str("missing scope number"),
            LineError::BadScope => String::from_str("scope number is not a valid integer"),
            LineError::MissingAction => String::from_str("missing action name"),
        }
    }
}

/// The position of the first double quote in `s`.
pub open spec fn quote_index(s: Seq<char>) -> Option<nat>
    decreases s.len(),
{
    if s.len() == 0 {
        None
    } else if s[0] == '"' {
        Some(0)
    } else {
        match quote_index(s.drop_first()) {
            Some(i) => Some(i + 1),
            None => None,
        }
    }
}

/// What a record says: its keystroke, whether it is global, its action
/// name and its context; or why it says nothing.
pub open spec fn parse_record(line: Seq<char>) -> Result<
    (Seq<char>, bool, Seq<char>, u32),
    LineError,
> {
    let t = trim(line);
    if t.len() == 0 || t[0] != '"' {
        Err(LineError::NoOpeningQuote)
    } else {
        let rest = t.drop_first();
        match quote_index(rest) {
            None => Err(LineError::NoClosingQuote),
            Some(q) => {
                let toks = words(rest.skip(q + 1 as int));
                if toks.len() == 0 {
                    Err(LineError::MissingContext)
                } else if parse_unsigned(toks[0]) is None {
                    Err(LineError::BadContext)
                } else if toks.len() == 1 {
                    Err(LineError::MissingScope)
                } else if parse_signed(toks[1]) is None {
                    Err(LineError::BadScope)
                } else if toks.len() == 2 {
                    Err(LineError::MissingAction)
                } else {
                    Ok(
                        (
                            rest.take(q as int),
                            parse_signed(toks[1])->Some_0 != 0,
                            join_words(toks.skip(2)),
                            parse_unsigned(toks[0])->Some_0,
                        ),
                    )
                }
            },
        }
    }
}

proof fn lemma_quote_index(s: Seq<char>, i: int)
    requires
        0 <= i <= s.len(),
        forall|k: int| 0 <= k < i ==> #[trigger] s[k] != '"',
        i < s.len() ==> s[i] == '"',
    ensures
        quote_index(s) == if i < s.len() {
            Some(i as nat)
        } else {
            None
        },
    decreases i,
{
    if i > 0 {
        let t = s.drop_first();
        assert forall|k: int| 0 <= k < i - 1 implies #[trigger] t[k] != '"' by {
            assert(t[k] == s[k + 1]);
        }
        lemma_quote_index(t, i - 1);
    }
}

/// Parses one configuration record, such as `"Ctrl k" 0 0 toggle_stop_after_album`:
/// a quoted keystroke, a context number, a scope number (zero for a local
/// binding, anything else for a global one) and an action name, whose words
/// are joined by single spaces.
///
/// The result is `(keystroke, is_global, action_name, context)`.
pub fn parse_line(line: &str) -> (r: Result<(String, bool, String, u32), String>)
    ensures
        match r {
            Ok((k, g, a, c)) => parse_record(line@) == Ok::<_, LineError>((k@, g, a@, c)),
            Err(m) => parse_record(line@) is Err && m@ == parse_record(line@)->Err_0.text(),
        },
{
    let v = chars_of(line);
    let (a, b) = trim_bounds(&v);
    let ghost t = v@.subrange(a as int, b as int);
    if a == b || v[a] != '"' {
        return Err(LineError::NoOpeningQuote.message());
    }
    let ghost rest = t.drop_first();
    let mut q: usize = a + 1;
    while q < b && v[q] != '"'
        invariant
            a < q <= b <= v@.len(),
            forall|k: int| a < k < q ==> #[trigger] v@[k] != '"',
        decreases b - q,
    {
        q = q + 1;
    }
    proof {
        assert forall|k: int| 0 <= k < q - a - 1 implies #[trigger] rest[k] != '"' by {
            assert(rest[k] == v@[k + a + 1]);
        }
        lemma_quote_index(rest, q - a - 1);
    }
    if q == b {
        return Err(LineError::NoClosingQuote.message());
    }
    assert(rest.skip(q - a) =~= v@.subrange(q + 1, b as int));
    let spans = split_words(&v, q + 1, b);
    let ghost toks = spans_text(v@, spans@);
    if spans.len() == 0 {
        return Err(LineError::MissingContext.message());
    }
    let ctx = match parse_unsigned_at(&v, spans[0].0, spans[0].1) {
        Some(n) => n,
        None => {
            return Err(LineError::BadContext.message());
        },
    };
    if spans.len() == 1 {
        return Err(LineError::MissingScope.message());
    }
    let scope = match parse_signed_at(&v, spans[1].0, spans[1].1) {
        Some(n) => n,
        None => {
            return Err(LineError::BadScope.message());
        },
    };
    if spans.len() == 2 {
        return Err(LineError::MissingAction.message());
    }
    let mut action = String::new();
    action.append(line.substring_char(spans[2].0, spans[2].1));
    assert(toks.subrange(2, 3) =~= seq![toks[2]]);
    let mut k: usize = 3;
    while k < spans.len()
        invariant
            3 <= k <= spans@.len(),
            v@ == line@,
            toks == spans_text(v@, spans@),
            forall|j: int|
                0 <= j < spans@.len() ==> (#[trigger] spans@[j]).0 < spans@[j].1 <= v@.len(),
            action@ == join_words(toks.subrange(2, k as int)),
        decreases spans@.len() - k,
    {
        proof {
            reveal_strlit(" ");
            lemma_join_push(toks.subrange(2, k as int), toks[k as int]);
            assert(toks.subrange(2, k as int).push(toks[k as int]) =~= toks.subrange(2, k + 1));
        }
        action.append(" ");
        action.append(line.substring_char(spans[k].0, spans[k].1));
        k = k + 1;
    }
    assert(toks.skip(2) =~= toks.subrange(2, k as int));
    assert(rest.take(q - a - 1) =~= v@.subrange(a + 1, q as int));
    let keystroke = String::from_str(line.substring_char(a + 1, q));
    Ok((keystroke, scope != 0, action, ctx))
}

/// A configuration record that was read: a binding of a keystroke to an
/// action, local or global, with the context the action runs in.
pub struct HotkeyRecord {
    pub keystroke: String,
    pub is_global: bool,
    pub action_name: String,
    pub ctx: u32,
}

impl HotkeyRecord {
    /// The record's fields, in the order `parse_line` gives them.
    pub open spec fn fields(&self) -> (Seq<char>, bool, Seq<char>, u32) {
        (self.keystroke@, self.is_global, self.action_name@, self.ctx)
    }
}

/// The records that the configuration entries hold, in their order;
/// entries without a value or whose value does not parse give none.
pub open spec fn config_records(items: Seq<DBConfigurationItem>) -> Seq<
    (Seq<char>, bool, Seq<char>, u32),
>
    decreases items.len(),
{
    if items.len() == 0 {
        Seq::empty()
    } else {
        let prev = config_records(items.drop_last());
        match items.last().value {
            Some(v) => match parse_record(v@) {
                Ok(f) => prev.push(f),
                Err(_) => prev,
            },
            None => prev,
        }
    }
}

/// The reports on entries whose value does not parse, in their order.
pub open spec fn config_errors(items: Seq<DBConfigurationItem>) -> Seq<Seq<char>>
    decreases items.len(),
{
    if items.len() == 0 {
        Seq::empty()
    } else {
        let prev = config_errors(items.drop_last());
        match items.last().value {
            Some(v) => match parse_record(v@) {
                Ok(_) => prev,
                Err(e) => prev.push(e.text()),
            },
            None => prev,
        }
    }
}

/// Reads the hotkey records of the configuration entries, in order; an
/// entry that does not parse is skipped and reported in the second list.
pub fn parse_config(items: &Vec<DBConfigurationItem>) -> (r: (Vec<HotkeyRecord>, Vec<String>))
    ensures
        r.0@.map_values(|h: HotkeyRecord| h.fields()) == config_records(items@),
        r.1@.map_values(|m: String| m@) == config_errors(items@),
{
    let mut records: Vec<HotkeyRecord> = Vec::new();
    let mut errors: Vec<String> = Vec::new();
    for i in 0..items.len()
        invariant
            records@.map_values(|h: HotkeyRecord| h.fields()) == config_records(
                items@.take(i as int),
            ),
            errors@.map_values(|m: String| m@) == config_errors(items@.take(i as int)),
    {
        let ghost prev = items@.take(i as int);
        assert(items@.take(i + 1).drop_last() =~= prev);
        let ghost old_records = records@;
        let ghost old_errors = errors@;
        if let Some(value) = items[i].value() {
            match parse_line(value) {
                Ok((keystroke, is_global, action_name, ctx)) => {
                    records.push(HotkeyRecord { keystroke, is_global, action_name, ctx });
                    assert(records@.map_values(|h: HotkeyRecord| h.fields()) =~= old_records.map_values(
                        |h: HotkeyRecord| h.fields(),
                    ).push(records@.last().fields()));
                },
                Err(msg) => {
                    errors.push(msg);
                    assert(errors@.map_values(|m: String| m@) =~= old_errors.map_values(
                        |m: String| m@,
                    ).push(errors@.last()@));
                },
            }
        }
    }
    assert(items@.take(items@.len() as int) =~= items@);
    (records, errors)
}

/// The record that writes the given fields: the keystroke in quotes, the
/// context and the scope in base ten, then the action name.
pub open spec fn record_text(keystroke: Seq<char>, ctx: u32, scope: i64, action: Seq<char>) -> Seq<
    char,
> {
    seq!['"'] + keystroke + seq!['"', ' '] + decimal(ctx as nat) + seq![' '] + signed_decimal(
        scope as int,
    ) + seq![' '] + action
}

proof fn lemma_join_ends(ws: Seq<Seq<char>>)
    requires
        ws.len() > 0,
        forall|i: int| 0 <= i < ws.len() ==> is_word(#[trigger] ws[i]),
    ensures
        join_words(ws).len() > 0,
        !is_space(join_words(ws).last()),
    decreases ws.len(),
{
    assert(is_word(ws[0]));
    if ws.len() > 1 {
        let rest = ws.drop_first();
        assert forall|i: int| 0 <= i < rest.len() implies is_word(#[trigger] rest[i]) by {
            assert(rest[i] == ws[i + 1]);
        }
        lemma_join_ends(rest);
    } else {
        assert(!is_space(ws[0][ws[0].len() - 1]));
    }
}

/// A word of digits, followed by a space, leads the words of what it starts.
proof fn lemma_words_number(n: Seq<char>, tail: Seq<char>)
    requires
        n.len() > 0,
        all_digits(n),
    ensures
        crate::text::words(n + seq![' '] + tail) == seq![n] + crate::text::words(tail),
{
    let s = n + seq![' '] + tail;
    assert forall|k: int| 0 <= k < n.len() implies !is_space(#[trigger] s[k]) by {
        assert(s[k] == n[k]);
        assert(crate::text::is_digit(n[k]));
    }
    crate::text::lemma_words_lead(s, n.len() as int);
    assert(s.take(n.len() as int) =~= n);
    let u = s.skip(n.len() as int);
    assert(u.drop_first() =~= tail);
    assert(words(u) == words(u.drop_first()));
}

/// Reading a record written from its fields gives back those fields: the
/// keystroke (any text without a double quote), the context, whether the
/// scope is non-zero, and the action name (words joined by single spaces).
pub proof fn lemma_record_round_trip(
    keystroke: Seq<char>,
    ctx: u32,
    scope: i64,
    action_words: Seq<Seq<char>>,
)
    requires
        !keystroke.contains('"'),
        action_words.len() > 0,
        forall|i: int| 0 <= i < action_words.len() ==> is_word(#[trigger] action_words[i]),
    ensures
        parse_record(record_text(keystroke, ctx, scope, join_words(action_words))) == Ok::<
            _,
            LineError,
        >((keystroke, scope != 0, join_words(action_words), ctx)),
{
    let action = join_words(action_words);
    let line = record_text(keystroke, ctx, scope, action);
    let d = decimal(ctx as nat);
    let sd = signed_decimal(scope as int);
    lemma_join_ends(action_words);
    lemma_parse_decimal(ctx, scope);
    lemma_decimal(ctx as nat);
    // the line has nothing to trim
    assert(!is_space(line[0]));
    assert(line.last() == action.last());
    assert(trim(line) == line);
    // the closing quote follows the keystroke
    let rest = line.drop_first();
    let kl = keystroke.len() as int;
    assert forall|k: int| 0 <= k < kl implies #[trigger] rest[k] != '"' by {
        assert(rest[k] == keystroke[k]);
        if rest[k] == '"' {
            assert(keystroke.contains('"'));
        }
    }
    lemma_quote_index(rest, kl);
    // then come the two numbers and the action's words
    let u = rest.skip(kl + 1);
    let after_ctx = sd + seq![' '] + action;
    assert(u =~= seq![' '] + (d + seq![' '] + after_ctx));
    assert(words(u) == words(u.drop_first()));
    assert(u.drop_first() =~= d + seq![' '] + after_ctx);
    lemma_words_number(d, after_ctx);
    if scope < 0 {
        let m = (0 - scope) as nat;
        lemma_decimal(m);
        let tail = seq![' '] + action;
        let w = after_ctx;
        assert(w =~= seq!['-'] + decimal(m) + tail);
        assert forall|k: int| 0 <= k < sd.len() implies !is_space(#[trigger] w[k]) by {
            if k > 0 {
                assert(w[k] == decimal(m)[k - 1]);
                assert(crate::text::is_digit(decimal(m)[k - 1]));
            }
        }
        crate::text::lemma_words_lead(w, sd.len() as int);
        assert(w.take(sd.len() as int) =~= sd);
        assert(w.skip(sd.len() as int) =~= tail);
        assert(words(tail) == words(tail.drop_first()));
        assert(tail.drop_first() =~= action);
    } else {
        lemma_decimal(scope as nat);
        assert(sd == decimal(scope as nat));
        lemma_words_number(sd, action);
    }
    lemma_words_of_join(action_words);
    let toks = words(u);
    assert(toks =~= seq![d, sd] + action_words);
    assert(toks.skip(2) =~= action_words);
    assert(rest.take(kl) =~= keystroke);
}

} // verus!
