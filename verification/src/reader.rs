//! A character-level tokenizer for one line of comma-separated text.
//!
//! [`CsvReader::read_line`] splits one physical line into its field strings,
//! honouring quoted fields, doubled-quote escapes, and discarded carriage
//! returns. The intended meaning is the state machine written down by
//! [`tok_step`]; `read_line` is proved to return exactly [`tokenize`] of its
//! input.
use vstd::prelude::*;

verus! {

use crate::num::push_char;

/// Options of a [`CsvReader`]: the field delimiter and the quoting character.
#[derive(Clone, Copy)]
pub struct CsvReaderOptions {
    pub delimiter: char,
    pub text_enclosure: char,
}

impl Default for CsvReaderOptions {
    /// A comma delimiter with double-quote enclosures.
    fn default() -> (r: CsvReaderOptions)
        ensures
            r.delimiter == ',',
            r.text_enclosure == '"',
    {
        CsvReaderOptions { delimiter: ',', text_enclosure: '"' }
    }
}

/// The states of the tokenizer's character state machine.
#[derive(Debug, Clone, Copy, PartialEq, Eq, Structural)]
pub enum ParseState {
    Neutral,
    InField,
    InQuotedField,
    QuoteInQuotedField,
    EndOfRow,
}

/// A snapshot of the tokenizer while it walks a line: the fields already
/// closed, the characters of the pending field, and the machine state.
pub struct TokSnapshot {
    pub state: ParseState,
    pub fields: Seq<Seq<char>>,
    pub buf: Seq<char>,
}

/// The snapshot before any character has been read.
pub open spec fn tok_init() -> TokSnapshot {
    TokSnapshot { state: ParseState::Neutral, fields: Seq::empty(), buf: Seq::empty() }
}

/// One transition of the tokenizer on character `c`, with delimiter `d` and
/// enclosure `q`. Characters that follow a row-ending line feed are ignored.
pub open spec fn tok_step(t: TokSnapshot, c: char, d: char, q: char) -> TokSnapshot {
    match t.state {
        ParseState::Neutral => if c == q {
            TokSnapshot { state: ParseState::InQuotedField, ..t }
        } else if c == d {
            TokSnapshot { fields: t.fields.push(Seq::empty()), ..t }
        } else if c == '\n' {
            TokSnapshot {
                state: ParseState::EndOfRow,
                fields: t.fields.push(t.buf),
                buf: Seq::empty(),
            }
        } else if c == '\r' {
            t
        } else {
            TokSnapshot { state: ParseState::InField, buf: t.buf.push(c), ..t }
        },
        ParseState::InQuotedField => if c == q {
            TokSnapshot { state: ParseState::QuoteInQuotedField, ..t }
        } else {
            TokSnapshot { buf: t.buf.push(c), ..t }
        },
        ParseState::InField => if c == d {
            TokSnapshot {
                state: ParseState::Neutral,
                fields: t.fields.push(t.buf),
                buf: Seq::empty(),
            }
        } else if c == '\n' {
            TokSnapshot {
                state: ParseState::EndOfRow,
                fields: t.fields.push(t.buf),
                buf: Seq::empty(),
            }
        } else if c == '\r' {
            t
        } else {
            TokSnapshot { buf: t.buf.push(c), ..t }
        },
        ParseState::QuoteInQuotedField => if c == q {
            TokSnapshot { state: ParseState::InQuotedField, buf: t.buf.push(c), ..t }
        } else if c == d {
            TokSnapshot {
                state: ParseState::Neutral,
                fields: t.fields.push(t.buf),
                buf: Seq::empty(),
            }
        } else if c == '\n' {
            TokSnapshot {
                state: ParseState::EndOfRow,
                fields: t.fields.push(t.buf),
                buf: Seq::empty(),
            }
        } else if c == '\r' {
            t
        } else {
            TokSnapshot { state: ParseState::InField, buf: t.buf.push(c), ..t }
        },
        ParseState::EndOfRow => t,
    }
}

/// The snapshot after reading all of `s`.
pub open spec fn tok_run(s: Seq<char>, d: char, q: char) -> TokSnapshot
    decreases s.len(),
{
    if s.len() == 0 {
        tok_init()
    } else {
        tok_step(tok_run(s.drop_last(), d, q), s.last(), d, q)
    }
}

/// The fields of one line: the closed fields, with a pending non-empty field
/// flushed at the end of the line; `None` when the line yields no field at
/// all.
pub open spec fn tokenize(s: Seq<char>, d: char, q: char) -> Option<Seq<Seq<char>>> {
    let t = tok_run(s, d, q);
    let fields = if t.buf.len() > 0 {
        t.fields.push(t.buf)
    } else {
        t.fields
    };
    if fields.len() == 0 {
        None
    } else {
        Some(fields)
    }
}

/// The views of a sequence of strings.
pub open spec fn views_of(s: Seq<String>) -> Seq<Seq<char>> {
    s.map_values(|x: String| x@)
}

proof fn lemma_views_of_push(s: Seq<String>, x: String)
    ensures
        views_of(s.push(x)) =~= views_of(s).push(x@),
{
}

/// A tokenizer for comma-separated lines.
pub struct CsvReader {
    pub options: CsvReaderOptions,
}

impl CsvReader {
    /// A reader with the default comma delimiter and double-quote enclosure.
    pub fn new() -> (r: CsvReader)
        ensures
            r.options.delimiter == ',',
            r.options.text_enclosure == '"',
    {
        CsvReader::with_options(CsvReaderOptions::default())
    }

    /// A reader with the given options.
    pub fn with_options(options: CsvReaderOptions) -> (r: CsvReader)
        ensures
            r.options == options,
    {
        CsvReader { options }
    }

    /// Splits one physical line into its fields.
    ///
    /// Returns `None` when the line closes no field and leaves no pending
    /// one (for example, an empty line). Characters after a row-ending line
    /// feed are ignored.
    pub fn read_line(&mut self, s: &str) -> (r: Option<Vec<String>>)
        ensures
            *final(self) == *old(self),
            ({
                let t = tokenize(s@, old(self).options.delimiter, old(self).options.text_enclosure);
                match r {
                    Some(v) => t is Some && views_of(v@) == t->0,
                    None => t is None,
                }
            }),
    {
        let d = self.options.delimiter;
        let q = self.options.text_enclosure;
        let n = s.unicode_len();
        let mut state = ParseState::Neutral;
        let mut fields: Vec<String> = Vec::new();
        let mut buf = String::new();
        let mut i: usize = 0;
        proof {
            assert(s@.take(0) =~= Seq::<char>::empty());
            assert(views_of(fields@) =~= Seq::<Seq<char>>::empty());
        }
        while i < n
            invariant
                n == s@.len(),
                i <= n,
                tok_run(s@.take(i as int), d, q) == (TokSnapshot {
                    state: state,
                    fields: views_of(fields@),
                    buf: buf@,
                }),
            decreases n - i,
        {
            let c = s.get_char(i);
            proof {
                assert(s@.take(i + 1).drop_last() =~= s@.take(i as int));
                assert(s@.take(i + 1).last() == s@[i as int]);
            }
            match state {
                ParseState::Neutral => {
                    if c == q {
                        state = ParseState::InQuotedField;
                    } else if c == d {
                        let empty_field = String::new();
                        proof {
                            lemma_views_of_push(fields@, empty_field);
                        }
                        fields.push(empty_field);
                    } else if c == '\n' {
                        let column = buf;
                        buf = String::new();
                        proof {
                            lemma_views_of_push(fields@, column);
                        }
                        fields.push(column);
                        state = ParseState::EndOfRow;
                    } else if c == '\r' {
                    } else {
                        push_char(&mut buf, c);
                        state = ParseState::InField;
                    }
                },
                ParseState::InQuotedField => {
                    if c == q {
                        state = ParseState::QuoteInQuotedField;
                    } else {
                        push_char(&mut buf, c);
                    }
                },
                ParseState::InField => {
                    if c == d {
                        let column = buf;
                        buf = String::new();
                        proof {
                            lemma_views_of_push(fields@, column);
                        }
                        fields.push(column);
                        state = ParseState::Neutral;
                    } else if c == '\n' {
                        let column = buf;
                        buf = String::new();
                        proof {
                            lemma_views_of_push(fields@, column);
                        }
                        fields.push(column);
                        state = ParseState::EndOfRow;
                    } else if c == '\r' {
                    } else {
                        push_char(&mut buf, c);
                    }
                },
                ParseState::QuoteInQuotedField => {
                    if c == q {
                        push_char(&mut buf, c);
                        state = ParseState::InQuotedField;
                    } else if c == d {
                        let column = buf;
                        buf = String::new();
                        proof {
                            lemma_views_of_push(fields@, column);
                        }
                        fields.push(column);
                        state = ParseState::Neutral;
                    } else if c == '\n' {
                        let column = buf;
                        buf = String::new();
                        proof {
                            lemma_views_of_push(fields@, column);
                        }
                        fields.push(column);
                        state = ParseState::EndOfRow;
                    } else if c == '\r' {
                    } else {
                        push_char(&mut buf, c);
                        state = ParseState::InField;
                    }
                },
                ParseState::EndOfRow => {
                },
            }
            i = i + 1;
        }
        proof {
            assert(s@.take(n as int) =~= s@);
        }
        if !buf.as_str().is_empty() {
            proof {
                lemma_views_of_push(fields@, buf);
            }
            fields.push(buf);
        }
        if fields.is_empty() {
            None
        } else {
            Some(fields)
        }
    }
}

/// The snapshot after reading `s` from snapshot `t` on.
pub open spec fn tok_run_from(t: TokSnapshot, s: Seq<char>, d: char, q: char) -> TokSnapshot
    decreases s.len(),
{
    if s.len() == 0 {
        t
    } else {
        tok_step(tok_run_from(t, s.drop_last(), d, q), s.last(), d, q)
    }
}

proof fn lemma_tok_run_from_init(s: Seq<char>, d: char, q: char)
    ensures
        tok_run(s, d, q) == tok_run_from(tok_init(), s, d, q),
    decreases s.len(),
{
    if s.len() > 0 {
        lemma_tok_run_from_init(s.drop_last(), d, q);
    }
}

proof fn lemma_tok_run_from_concat(t: TokSnapshot, a: Seq<char>, b: Seq<char>, d: char, q: char)
    ensures
        tok_run_from(t, a + b, d, q) == tok_run_from(tok_run_from(t, a, d, q), b, d, q),
    decreases b.len(),
{
    if b.len() == 0 {
        assert(a + b =~= a);
    } else {
        lemma_tok_run_from_concat(t, a, b.drop_last(), d, q);
        assert((a + b).drop_last() =~= a + b.drop_last());
        assert((a + b).last() == b.last());
    }
}

/// A field written inside a quoted field: every quoting character doubled.
pub open spec fn escape_field(s: Seq<char>, q: char) -> Seq<char>
    decreases s.len(),
{
    if s.len() == 0 {
        Seq::empty()
    } else {
        escape_field(s.drop_last(), q) + (if s.last() == q {
            seq![q, q]
        } else {
            seq![s.last()]
        })
    }
}

/// A field written as one quoted field: opened and closed with the quoting
/// character, its occurrences inside doubled.
pub open spec fn quote_field(s: Seq<char>, q: char) -> Seq<char> {
    seq![q] + escape_field(s, q) + seq![q]
}

proof fn lemma_escape_keeps_quoted(t: TokSnapshot, s: Seq<char>, d: char, q: char)
    requires
        t.state == ParseState::InQuotedField,
    ensures
        tok_run_from(t, escape_field(s, q), d, q) == (TokSnapshot {
            state: ParseState::InQuotedField,
            fields: t.fields,
            buf: t.buf + s,
        }),
    decreases s.len(),
{
    reveal_with_fuel(tok_run_from, 4);
    if s.len() == 0 {
        assert(t.buf + s =~= t.buf);
        assert(tok_run_from(t, escape_field(s, q), d, q) =~= t);
    } else {
        lemma_escape_keeps_quoted(t, s.drop_last(), d, q);
        let mid = TokSnapshot {
            state: ParseState::InQuotedField,
            fields: t.fields,
            buf: t.buf + s.drop_last(),
        };
        let c = s.last();
        if c == q {
            assert(escape_field(s, q) == escape_field(s.drop_last(), q) + seq![q, q]);
            lemma_tok_run_from_concat(t, escape_field(s.drop_last(), q), seq![q, q], d, q);
            assert(seq![q, q].drop_last() =~= seq![q]);
            assert(seq![q].drop_last() =~= Seq::<char>::empty());
            assert(seq![q, q].last() == q);
            assert(seq![q].last() == q);
            let one = tok_step(mid, q, d, q);
            assert(one.state == ParseState::QuoteInQuotedField);
            let two = tok_step(one, q, d, q);
            assert(two.state == ParseState::InQuotedField);
            assert(tok_run_from(mid, seq![q], d, q) == one);
            assert(tok_run_from(mid, seq![q, q], d, q) == two);
            assert(two.buf =~= t.buf + s);
            assert(tok_run_from(t, escape_field(s, q), d, q) == two);
        } else {
            assert(escape_field(s, q) == escape_field(s.drop_last(), q) + seq![c]);
            lemma_tok_run_from_concat(t, escape_field(s.drop_last(), q), seq![c], d, q);
            assert(seq![c].drop_last() =~= Seq::<char>::empty());
            assert(seq![c].last() == c);
            let one = tok_step(mid, c, d, q);
            assert(tok_run_from(mid, seq![c], d, q) == one);
            assert(one.buf =~= t.buf + s);
            assert(tok_run_from(t, escape_field(s, q), d, q) == one);
        }
    }
}

/// Round trip of one quoted field: any field text, quoted and escaped per
/// rule and closed by a line feed, tokenizes back to exactly that text.
pub proof fn lemma_tokenizer_round_trip(s: Seq<char>, d: char, q: char)
    requires
        q != '\n',
        q != '\r',
    ensures
        tokenize(quote_field(s, q) + seq!['\n'], d, q) == Some(seq![s]),
{
    reveal_with_fuel(tok_run_from, 4);
    let whole = quote_field(s, q) + seq!['\n'];
    lemma_tok_run_from_init(whole, d, q);
    assert(whole =~= seq![q] + (escape_field(s, q) + (seq![q] + seq!['\n'])));
    lemma_tok_run_from_concat(
        tok_init(),
        seq![q],
        escape_field(s, q) + (seq![q] + seq!['\n']),
        d,
        q,
    );
    assert(seq![q].drop_last() =~= Seq::<char>::empty());
    assert(seq![q].last() == q);
    assert((seq![q] + seq!['\n']).drop_last() =~= seq![q]);
    assert((seq![q] + seq!['\n']).last() == '\n');
    let opened = tok_run_from(tok_init(), seq![q], d, q);
    assert(opened == tok_step(tok_init(), q, d, q));
    assert(opened == TokSnapshot {
        state: ParseState::InQuotedField,
        fields: Seq::empty(),
        buf: Seq::empty(),
    });
    lemma_tok_run_from_concat(opened, escape_field(s, q), seq![q] + seq!['\n'], d, q);
    lemma_escape_keeps_quoted(opened, s, d, q);
    let filled = tok_run_from(opened, escape_field(s, q), d, q);
    assert(filled.buf =~= s);
    assert((seq![q] + seq!['\n']).drop_last() =~= seq![q]);
    assert(seq![q].drop_last() =~= Seq::<char>::empty());
    let closing = tok_step(filled, q, d, q);
    assert(closing.state == ParseState::QuoteInQuotedField);
    let done = tok_step(closing, '\n', d, q);
    assert(tok_run_from(opened, escape_field(s, q) + (seq![q] + seq!['\n']), d, q) == done) by {
        lemma_tok_run_from_concat(opened, escape_field(s, q), seq![q] + seq!['\n'], d, q);
        assert(tok_run_from(filled, seq![q], d, q) == closing);
        assert(tok_run_from(filled, seq![q] + seq!['\n'], d, q) == done);
    }
    assert(done.fields =~= seq![s]);
    assert(done.buf.len() == 0);
    assert(tok_run(whole, d, q) == done);
}

} // verus!
