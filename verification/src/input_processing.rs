//! Converts a command string typed by the operator into the exact byte
//! sequence to send: a single quote toggles a numeric mode in which
//! whitespace-separated decimal or `0x`-prefixed hexadecimal literals stand
//! for single bytes; outside it every character passes through as its raw
//! byte value.

use vstd::prelude::*;
use vstd::string::StringExecFns;

use crate::text::{
    chars_vec, parse_dec_u8, parse_hex_u8, spec_parse_dec, spec_parse_hex, split_ws,
    split_whitespace_chars,
};

verus! {

/// Why tokenization failed.
#[derive(Debug, PartialEq)]
pub enum InputError {
    InvalidByteSequence(String),
}

/// The abstract failure cases of tokenization.
pub ghost enum InputErrorKind {
    /// A quoted literal is not a byte-sized number.
    NonNumeric,
    /// The input ended inside a quoted region.
    UnclosedQuote,
}

/// The byte a character passes through as outside numeric mode: its code
/// point truncated to eight bits.
pub open spec fn char_byte(c: char) -> u8 {
    (((c as u32) % 256) as u8)
}

/// The byte value of one quoted literal: hexadecimal after a `0x` prefix,
/// decimal otherwise; `None` when it is no byte-sized number.
pub open spec fn spec_token_byte(t: Seq<char>) -> Option<u8> {
    if t.len() >= 2 && t[0] == '0' && t[1] == 'x' {
        match spec_parse_hex(t.skip(2), 255) {
            Some(v) => Some(v as u8),
            None => None,
        }
    } else {
        match spec_parse_dec(t, 255) {
            Some(v) => Some(v as u8),
            None => None,
        }
    }
}

/// The bytes of a list of quoted literals; `None` as soon as one is bad.
pub open spec fn spec_quoted_bytes(tokens: Seq<Seq<char>>) -> Option<Seq<u8>>
    decreases tokens.len(),
{
    if tokens.len() == 0 {
        Some(Seq::empty())
    } else {
        match (spec_token_byte(tokens[0]), spec_quoted_bytes(tokens.drop_first())) {
            (Some(b), Some(rest)) => Some(seq![b] + rest),
            _ => None,
        }
    }
}

/// One step per character: `in_quote` is the numeric-mode flag, `buf` the
/// text accumulated since the opening quote, `out` the bytes produced so far.
pub open spec fn spec_process(s: Seq<char>, in_quote: bool, buf: Seq<char>, out: Seq<u8>) -> Result<
    Seq<u8>,
    InputErrorKind,
>
    decreases s.len(),
{
    if s.len() == 0 {
        if in_quote {
            Err(InputErrorKind::UnclosedQuote)
        } else {
            Ok(out)
        }
    } else {
        let c = s[0];
        if c == '\'' {
            if in_quote {
                if buf.len() == 0 {
                    spec_process(s.drop_first(), false, Seq::empty(), out)
                } else {
                    match spec_quoted_bytes(split_ws(buf)) {
                        Some(bs) => spec_process(s.drop_first(), false, Seq::empty(), out + bs),
                        None => Err(InputErrorKind::NonNumeric),
                    }
                }
            } else {
                spec_process(s.drop_first(), true, buf, out)
            }
        } else if in_quote {
            spec_process(s.drop_first(), true, buf.push(c), out)
        } else {
            spec_process(s.drop_first(), false, buf, out.push(char_byte(c)))
        }
    }
}

/// What tokenizing `s` yields.
pub open spec fn spec_process_input(s: Seq<char>) -> Result<Seq<u8>, InputErrorKind> {
    spec_process(s, false, Seq::empty(), Seq::empty())
}

/// The byte value of one quoted literal.
fn token_byte(t: &[char]) -> (r: Option<u8>)
    ensures
        r == spec_token_byte(t@),
{
    if t.len() >= 2 && t[0] == '0' && t[1] == 'x' {
        let rest = &t[2..t.len()];
        assert(rest@ =~= t@.skip(2));
        parse_hex_u8(rest)
    } else {
        parse_dec_u8(t)
    }
}

/// The bytes of one quoted region, or `None` when a literal is bad.
fn quoted_bytes(buf: &[char]) -> (r: Option<Vec<u8>>)
    ensures
        match spec_quoted_bytes(split_ws(buf@)) {
            Some(bs) => r matches Some(v) && v@ == bs,
            None => r is None,
        },
{
    let ghost toks = split_ws(buf@);
    let tokens = split_whitespace_chars(buf);
    let mut acc: Vec<u8> = Vec::new();
    let mut k: usize = 0;
    proof {
        assert(toks.skip(0) =~= toks);
        if spec_quoted_bytes(toks) is Some {
            let rest = spec_quoted_bytes(toks).unwrap();
            assert(acc@ + rest =~= rest);
        }
    }
    while k < tokens.len()
        invariant
            k <= tokens@.len(),
            toks == split_ws(buf@),
            tokens@.len() == toks.len(),
            forall|m: int| 0 <= m < toks.len() ==> (#[trigger] tokens@[m])@ == toks[m],
            match spec_quoted_bytes(toks.skip(k as int)) {
                Some(rest) => spec_quoted_bytes(toks) == Some(acc@ + rest),
                None => spec_quoted_bytes(toks) is None,
            },
        decreases tokens@.len() - k,
    {
        let ghost rem = toks.skip(k as int);
        proof {
            assert(rem.len() > 0);
            assert(rem[0] == toks[k as int]);
            assert(rem.drop_first() =~= toks.skip(k as int + 1));
        }
        match token_byte(tokens[k].as_slice()) {
            Some(b) => {
                let ghost old_acc = acc@;
                acc.push(b);
                proof {
                    if spec_quoted_bytes(toks.skip(k as int + 1)) is Some {
                        let rest2 = spec_quoted_bytes(toks.skip(k as int + 1)).unwrap();
                        assert(old_acc + (seq![b] + rest2) =~= (old_acc.push(b)) + rest2);
                    }
                }
            },
            None => {
                proof {
                    assert(spec_token_byte(rem[0]) is None);
                    assert(spec_quoted_bytes(rem) is None);
                }
                return None;
            },
        }
        k = k + 1;
    }
    proof {
        assert(toks.skip(toks.len() as int) =~= Seq::<Seq<char>>::empty());
        assert(acc@ + Seq::<u8>::empty() =~= acc@);
    }
    Some(acc)
}

/// Turns the operator's command text into the bytes to send.
///
/// Outside numeric mode every character passes through as its raw byte
/// value. A single quote opens numeric mode; the text up to the closing
/// quote is read as whitespace-separated byte literals, hexadecimal after a
/// `0x` prefix and decimal otherwise. A literal that is not a byte-sized
/// number fails, and so does input that ends inside an open quote.
pub fn process_input(input: &str) -> (r: Result<Vec<u8>, InputError>)
    ensures
        match spec_process_input(input@) {
            Ok(bs) => r matches Ok(v) && v@ == bs,
            Err(k) => r matches Err(e) && (e matches InputError::InvalidByteSequence(m) && (if k
                is NonNumeric {
                m@ == "Non-numeric character inside quote"@
            } else {
                m@ == "Unclosed single quote"@
            })),
        },
{
    let chars = chars_vec(input);
    let mut result: Vec<u8> = Vec::new();
    let mut in_quote: bool = false;
    let mut number_buffer: Vec<char> = Vec::new();
    let mut i: usize = 0;
    proof {
        assert(chars@.skip(0) =~= chars@);
    }
    while i < chars.len()
        invariant
            i <= chars@.len(),
            chars@ == input@,
            spec_process_input(input@) == spec_process(chars@.skip(i as int), in_quote,
                number_buffer@, result@),
        decreases chars@.len() - i,
    {
        let ghost rest = chars@.skip(i as int);
        proof {
            assert(rest.len() > 0);
            assert(rest[0] == chars@[i as int]);
            assert(rest.drop_first() =~= chars@.skip(i as int + 1));
        }
        let ghost pre_buf = number_buffer@;
        let ghost pre_out = result@;
        let c = chars[i];
        if c == '\'' {
            if in_quote {
                if number_buffer.len() > 0 {
                    match quoted_bytes(number_buffer.as_slice()) {
                        Some(mut bs) => {
                            result.append(&mut bs);
                            number_buffer.clear();
                            proof {
                                assert(number_buffer@ =~= Seq::<char>::empty());
                                assert(spec_process(rest, true, pre_buf, pre_out) == spec_process(
                                    chars@.skip(i as int + 1), false, number_buffer@, result@));
                            }
                        },
                        None => {
                            return Err(InputError::InvalidByteSequence(String::from_str(
                                "Non-numeric character inside quote")));
                        },
                    }
                } else {
                    proof {
                        assert(number_buffer@ =~= Seq::<char>::empty());
                        assert(spec_process(rest, true, pre_buf, pre_out) == spec_process(
                            chars@.skip(i as int + 1), false, number_buffer@, pre_out));
                    }
                }
                in_quote = false;
            } else {
                in_quote = true;
            }
        } else if in_quote {
            number_buffer.push(c);
        } else {
            result.push(((c as u32) % 256) as u8);
        }
        i = i + 1;
    }
    proof {
        assert(chars@.skip(chars@.len() as int) =~= Seq::<char>::empty());
    }
    if in_quote {
        return Err(InputError::InvalidByteSequence(String::from_str("Unclosed single quote")));
    }
    Ok(result)
}

} // verus!
