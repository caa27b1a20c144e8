//! Quote-aware splitting of an input line into argument tokens.
//!
//! A single left-to-right scan carries a [`QuoteState`] and an accumulating
//! current-token buffer.  Unquoted spaces separate tokens and collapse;
//! single quotes group everything up to the next single quote; double
//! quotes group everything up to the next double quote, with a single
//! quote inside them taken literally.  A line that ends with an open
//! quote keeps the buffered text and discards the unterminated quote.

use vstd::prelude::*;

verus! {

/// Scanner state during tokenization of one line.  The two quote modes
/// are mutually exclusive by construction.
#[derive(Clone, Copy, Debug, PartialEq, Eq, Structural)]
pub enum QuoteState {
    Unquoted,
    InSingleQuote,
    InDoubleQuote,
}

/// The two characters with special meaning for the scanner.
#[derive(Clone, Copy, Debug, PartialEq, Eq, Structural)]
pub enum SpecialChar {
    DoubleQuote,
    SingleQuote,
}

impl SpecialChar {
    /// Classifies a character as one of the two quote characters.
    pub fn from_char(ch: char) -> (r: Option<SpecialChar>)
        ensures
            r == (if ch == '\'' {
                Some(SpecialChar::SingleQuote)
            } else if ch == '"' {
                Some(SpecialChar::DoubleQuote)
            } else {
                None::<SpecialChar>
            }),
    {
        match ch {
            '\'' => Some(SpecialChar::SingleQuote),
            '"' => Some(SpecialChar::DoubleQuote),
            _ => None,
        }
    }
}

/// The whitespace characters trimmed from the tail of the final token.
pub open spec fn is_token_ws(c: char) -> bool {
    c == ' ' || c == '\t' || c == '\n' || c == '\r'
}

/// `s` without its trailing whitespace characters.
pub open spec fn trim_trailing_ws(s: Seq<char>) -> Seq<char>
    decreases s.len(),
{
    if s.len() == 0 {
        s
    } else if is_token_ws(s.last()) {
        trim_trailing_ws(s.drop_last())
    } else {
        s
    }
}

/// The full configuration of the scanner: its quoting state, the token
/// being accumulated, and the tokens emitted so far, in order.
#[verifier::ext_equal]
pub struct Scan {
    pub state: QuoteState,
    pub cur: Seq<char>,
    pub emitted: Seq<Seq<char>>,
}

/// The scanner configuration at the start of a line.
pub open spec fn scan_init() -> Scan {
    Scan { state: QuoteState::Unquoted, cur: Seq::empty(), emitted: Seq::empty() }
}

/// One transition of the scanner on the character `c`.
pub open spec fn scan_step(m: Scan, c: char) -> Scan {
    match m.state {
        QuoteState::Unquoted => {
            if c == '\'' {
                Scan { state: QuoteState::InSingleQuote, cur: m.cur, emitted: m.emitted }
            } else if c == '"' {
                Scan { state: QuoteState::InDoubleQuote, cur: m.cur, emitted: m.emitted }
            } else if c == ' ' {
                if m.cur.len() > 0 {
                    Scan { state: m.state, cur: Seq::empty(), emitted: m.emitted.push(m.cur) }
                } else {
                    m
                }
            } else {
                Scan { state: m.state, cur: m.cur.push(c), emitted: m.emitted }
            }
        },
        QuoteState::InSingleQuote => {
            if c == '\'' {
                Scan { state: QuoteState::Unquoted, cur: m.cur, emitted: m.emitted }
            } else {
                Scan { state: m.state, cur: m.cur.push(c), emitted: m.emitted }
            }
        },
        QuoteState::InDoubleQuote => {
            if c == '"' {
                Scan { state: QuoteState::Unquoted, cur: m.cur, emitted: m.emitted }
            } else {
                Scan { state: m.state, cur: m.cur.push(c), emitted: m.emitted }
            }
        },
    }
}

/// The scanner run over all of `s`, starting from configuration `m`.
pub open spec fn scan_run(m: Scan, s: Seq<char>) -> Scan
    decreases s.len(),
{
    if s.len() == 0 {
        m
    } else {
        scan_run(scan_step(m, s[0]), s.drop_first())
    }
}

/// The tokens of one whole input line: run the scanner over the line and,
/// if the buffer is non-empty at the end, emit it as the final token with
/// its trailing whitespace trimmed.
pub open spec fn spec_tokenize(s: Seq<char>) -> Seq<Seq<char>> {
    let m = scan_run(scan_init(), s);
    if m.cur.len() == 0 {
        m.emitted
    } else {
        m.emitted.push(trim_trailing_ws(m.cur))
    }
}

/// Running the scanner over `s` extended by one character is the same as
/// running it over `s` and then taking one step.
pub proof fn lemma_scan_run_snoc(m: Scan, s: Seq<char>, c: char)
    ensures
        scan_run(m, s.push(c)) == scan_step(scan_run(m, s), c),
    decreases s.len(),
{
    let t = s.push(c);
    if s.len() == 0 {
        assert(t[0] == c);
        assert(t.drop_first() =~= Seq::<char>::empty());
        assert(scan_run(m, t) == scan_run(scan_step(m, c), t.drop_first()));
        assert(scan_run(scan_step(m, c), t.drop_first()) == scan_step(m, c));
        assert(scan_run(m, s) == m);
    } else {
        assert(t[0] == s[0]);
        assert(t.drop_first() =~= s.drop_first().push(c));
        lemma_scan_run_snoc(scan_step(m, s[0]), s.drop_first(), c);
        assert(scan_run(m, t) == scan_run(scan_step(m, s[0]), t.drop_first()));
        assert(scan_run(scan_step(m, s[0]), s.drop_first().push(c)) == scan_step(
            scan_run(scan_step(m, s[0]), s.drop_first()),
            c,
        ));
        assert(scan_run(m, s) == scan_run(scan_step(m, s[0]), s.drop_first()));
    }
}

/// `toks` joined with single spaces: the line whose tokens they are.
pub open spec fn spec_join_space(toks: Seq<Seq<char>>) -> Seq<char>
    decreases toks.len(),
{
    if toks.len() == 0 {
        Seq::empty()
    } else if toks.len() == 1 {
        toks[0]
    } else {
        toks[0] + seq![' '] + spec_join_space(toks.drop_first())
    }
}

/// A token that a space-joined rejoin carries unchanged through the
/// scanner: non-empty, with no separator and no quote character in it.
pub open spec fn clean_token(t: Seq<char>) -> bool {
    t.len() > 0 && forall|i: int| 0 <= i < t.len() ==> t[i] != ' ' && t[i] != '\'' && t[i] != '"'
}

/// Running the scanner over a concatenation is running it over the two
/// parts in turn.
proof fn lemma_scan_run_concat(m: Scan, s1: Seq<char>, s2: Seq<char>)
    ensures
        scan_run(m, s1 + s2) == scan_run(scan_run(m, s1), s2),
    decreases s1.len(),
{
    if s1.len() == 0 {
        assert(s1 + s2 =~= s2);
    } else {
        assert((s1 + s2)[0] == s1[0]);
        assert((s1 + s2).drop_first() =~= s1.drop_first() + s2);
        lemma_scan_run_concat(scan_step(m, s1[0]), s1.drop_first(), s2);
    }
}

/// Characters with no special meaning pass straight into the buffer.
proof fn lemma_scan_plain_chars(m: Scan, t: Seq<char>)
    requires
        m.state == QuoteState::Unquoted,
        forall|i: int| 0 <= i < t.len() ==> t[i] != ' ' && t[i] != '\'' && t[i] != '"',
    ensures
        scan_run(m, t) == (Scan { state: QuoteState::Unquoted, cur: m.cur + t, emitted: m.emitted }),
    decreases t.len(),
{
    if t.len() == 0 {
        assert(m.cur + t =~= m.cur);
        assert(m =~= (Scan { state: QuoteState::Unquoted, cur: m.cur + t, emitted: m.emitted }));
    } else {
        let m1 = scan_step(m, t[0]);
        assert(m1 == (Scan { state: QuoteState::Unquoted, cur: m.cur.push(t[0]), emitted: m.emitted }));
        lemma_scan_plain_chars(m1, t.drop_first());
        assert(m.cur.push(t[0]) + t.drop_first() =~= m.cur + t);
    }
}

/// From an unquoted configuration with an empty buffer, scanning the
/// space-joined rejoin of clean tokens emits all but the last token and
/// leaves the last one in the buffer.
proof fn lemma_scan_join(m: Scan, toks: Seq<Seq<char>>)
    requires
        m.state == QuoteState::Unquoted,
        m.cur.len() == 0,
        toks.len() > 0,
        forall|i: int| 0 <= i < toks.len() ==> clean_token(#[trigger] toks[i]),
    ensures
        scan_run(m, spec_join_space(toks)) == (Scan {
            state: QuoteState::Unquoted,
            cur: toks.last(),
            emitted: m.emitted + toks.drop_last(),
        }),
    decreases toks.len(),
{
    if toks.len() == 1 {
        lemma_scan_plain_chars(m, toks[0]);
        assert(m.cur + toks[0] =~= toks[0]);
        assert(m.emitted + toks.drop_last() =~= m.emitted);
    } else {
        let rest = toks.drop_first();
        assert(spec_join_space(toks) == (toks[0] + seq![' ']) + spec_join_space(rest));
        lemma_scan_run_concat(m, toks[0] + seq![' '], spec_join_space(rest));
        lemma_scan_run_concat(m, toks[0], seq![' ']);
        lemma_scan_plain_chars(m, toks[0]);
        assert(m.cur + toks[0] =~= toks[0]);
        let m1 = Scan { state: QuoteState::Unquoted, cur: toks[0], emitted: m.emitted };
        assert(seq![' '][0] == ' ');
        assert(seq![' '].drop_first() =~= Seq::<char>::empty());
        assert(toks[0].len() > 0);
        let m2 = scan_run(m1, seq![' ']);
        assert(m2 == scan_run(scan_step(m1, ' '), seq![' '].drop_first()));
        assert(scan_step(m1, ' ') == (Scan {
            state: QuoteState::Unquoted,
            cur: Seq::<char>::empty(),
            emitted: m.emitted.push(toks[0]),
        }));
        assert(m2 == (Scan {
            state: QuoteState::Unquoted,
            cur: Seq::<char>::empty(),
            emitted: m.emitted.push(toks[0]),
        }));
        assert(forall|i: int| 0 <= i < rest.len() ==> clean_token(#[trigger] rest[i]));
        lemma_scan_join(m2, rest);
        assert(rest.last() == toks.last());
        assert(m.emitted.push(toks[0]) + rest.drop_last() =~= m.emitted + toks.drop_last());
    }
}

/// Tokenization is idempotent on already-clean input: tokenizing the
/// space-joined rejoin of non-empty tokens that hold no quote character
/// and no separator, the last of which does not end in trimmable
/// whitespace, reproduces exactly the same token sequence.
pub proof fn lemma_tokenize_idempotent(toks: Seq<Seq<char>>)
    requires
        forall|i: int| 0 <= i < toks.len() ==> clean_token(#[trigger] toks[i]),
        toks.len() > 0 ==> !is_token_ws(toks.last().last()),
    ensures
        spec_tokenize(spec_join_space(toks)) == toks,
{
    if toks.len() == 0 {
        assert(scan_run(scan_init(), spec_join_space(toks)) == scan_init());
        assert(spec_tokenize(spec_join_space(toks)) =~= toks);
    } else {
        lemma_scan_join(scan_init(), toks);
        let m = scan_run(scan_init(), spec_join_space(toks));
        assert(m.cur == toks.last());
        assert(toks.last().len() > 0);
        assert(trim_trailing_ws(toks.last()) == toks.last());
        assert(Seq::<Seq<char>>::empty() + toks.drop_last() =~= toks.drop_last());
        assert(toks.drop_last().push(toks.last()) =~= toks);
    }
}

/// Relies on String::push: appends exactly the given character.
#[verifier::external_body]
fn push_char(s: &mut String, c: char)
    ensures
        final(s)@ == old(s)@.push(c),
{
    s.push(c);
}

/// Whether the character counts as trimmable whitespace.
fn is_ws_char(c: char) -> (r: bool)
    ensures
        r == is_token_ws(c),
{
    c == ' ' || c == '\t' || c == '\n' || c == '\r'
}

/// When everything from position `k` on is whitespace and position `k`
/// does not follow more whitespace, trimming is exactly truncation at `k`.
proof fn lemma_trim_is_prefix(s: Seq<char>, k: int)
    requires
        0 <= k <= s.len(),
        forall|j: int| k <= j < s.len() ==> is_token_ws(s[j]),
        k > 0 ==> !is_token_ws(s[k - 1]),
    ensures
        trim_trailing_ws(s) == s.subrange(0, k),
    decreases s.len(),
{
    if s.len() == 0 {
        assert(s.subrange(0, 0) =~= s);
    } else if k == s.len() {
        assert(!is_token_ws(s.last()));
        assert(s.subrange(0, k) =~= s);
    } else {
        assert(is_token_ws(s[s.len() - 1]));
        lemma_trim_is_prefix(s.drop_last(), k);
        assert(s.drop_last().subrange(0, k) =~= s.subrange(0, k));
    }
}

/// Copy of `s` without its trailing whitespace characters.
fn trimmed_tail(s: &String) -> (r: String)
    ensures
        r@ == trim_trailing_ws(s@),
{
    let n = s.as_str().unicode_len();
    let mut k: usize = n;
    while k > 0
        invariant
            k <= n,
            n == s@.len(),
            forall|j: int| k <= j < n ==> is_token_ws(s@[j]),
        ensures
            k <= n,
            n == s@.len(),
            forall|j: int| k <= j < n ==> is_token_ws(s@[j]),
            k > 0 ==> !is_token_ws(s@[k - 1]),
        decreases k,
    {
        if is_ws_char(s.as_str().get_char(k - 1)) {
            k = k - 1;
        } else {
            break;
        }
    }
    proof {
        lemma_trim_is_prefix(s@, k as int);
    }
    String::from_str(s.as_str().substring_char(0, k))
}

/// Splits one input line into its argument tokens.
///
/// A single quote toggles single-quote grouping; a double quote toggles
/// double-quote grouping; inside double quotes a single quote is literal;
/// inside single quotes everything but the closing single quote is
/// literal.  Unquoted spaces separate tokens, and runs of them collapse
/// without emitting empty tokens.  At the end of the line a non-empty
/// buffer is emitted as the final token, trimmed of trailing whitespace;
/// an unterminated quote is discarded and the buffered text kept.
pub fn tokenize(input: &str) -> (tokens: Vec<String>)
    ensures
        tokens.deep_view() == spec_tokenize(input@),
{
    let n = input.unicode_len();
    let mut tokens: Vec<String> = Vec::new();
    let mut current: String = String::new();
    let mut state: QuoteState = QuoteState::Unquoted;
    let mut i: usize = 0;
    while i < n
        invariant
            i <= n,
            n == input@.len(),
            (Scan { state: state, cur: current@, emitted: tokens.deep_view() }) == scan_run(
                scan_init(),
                input@.subrange(0, i as int),
            ),
        decreases n - i,
    {
        let c = input.get_char(i);
        proof {
            assert(input@.subrange(0, i + 1) =~= input@.subrange(0, i as int).push(
                input@[i as int],
            ));
            lemma_scan_run_snoc(scan_init(), input@.subrange(0, i as int), input@[i as int]);
        }
        let ghost pre = Scan { state: state, cur: current@, emitted: tokens.deep_view() };
        match state {
            QuoteState::Unquoted => {
                if c == '\'' {
                    state = QuoteState::InSingleQuote;
                } else if c == '"' {
                    state = QuoteState::InDoubleQuote;
                } else if c == ' ' {
                    if !current.as_str().is_empty() {
                        tokens.push(current);
                        current = String::new();
                        proof {
                            assert(tokens.deep_view() =~= pre.emitted.push(pre.cur));
                        }
                    }
                } else {
                    push_char(&mut current, c);
                }
            },
            QuoteState::InSingleQuote => {
                if c == '\'' {
                    state = QuoteState::Unquoted;
                } else {
                    push_char(&mut current, c);
                }
            },
            QuoteState::InDoubleQuote => {
                if c == '"' {
                    state = QuoteState::Unquoted;
                } else {
                    push_char(&mut current, c);
                }
            },
        }
        proof {
            assert((Scan { state: state, cur: current@, emitted: tokens.deep_view() }) =~= scan_step(
                pre,
                input@[i as int],
            ));
        }
        i = i + 1;
    }
    proof {
        assert(input@.subrange(0, n as int) =~= input@);
    }
    if !current.as_str().is_empty() {
        let t = trimmed_tail(&current);
        tokens.push(t);
        proof {
            assert(tokens.deep_view() =~= spec_tokenize(input@));
        }
    }
    tokens
}

} // verus!
