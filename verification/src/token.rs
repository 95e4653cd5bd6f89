//! The decode protocol: a token stream and the decoder that walks it.
//!
//! The decoder stands for the underlying decoding framework.  Its only
//! structural features that matter to context propagation are the
//! unconditional decode of each leaf kind and the sequence-access
//! sub-protocol, which visits elements one at a time between a start and an
//! end marker.

use vstd::prelude::*;

verus! {

/// One event of an encoded input: a leaf value or a sequence delimiter.
#[derive(Debug, Clone)]
pub enum Token {
    Bool(bool),
    U8(u8),
    U16(u16),
    U32(u32),
    U64(u64),
    U128(u128),
    I8(i8),
    I16(i16),
    I32(i32),
    I64(i64),
    I128(i128),
    Str(String),
    Bits(Vec<bool>),
    SeqStart,
    SeqEnd,
}

/// A decode failure.
///
/// `UnexpectedEnd` and `UnexpectedToken` originate in the decoder itself
/// (truncated or type-mismatched input); `WrongLength` is the conversion
/// failure raised when a fixed-capacity structure is rebuilt from a dynamic
/// sequence of the wrong cardinality.
#[derive(Debug, Clone, Copy, PartialEq, Eq)]
pub enum DecodeError {
    UnexpectedEnd,
    UnexpectedToken,
    WrongLength { expected: usize, actual: usize },
}

/// A decoder positioned inside a token stream.
///
/// Decoding only ever advances the cursor; no implementation rewinds it.
pub struct Decoder {
    tokens: Vec<Token>,
    pos: usize,
}

impl Decoder {
    /// The whole input stream.
    pub closed spec fn tokens(&self) -> Seq<Token> {
        self.tokens@
    }

    /// The cursor: how many tokens have been consumed.
    pub closed spec fn pos(&self) -> int {
        self.pos as int
    }

    /// The cursor never runs past the end of the input.
    pub open spec fn wf(&self) -> bool {
        0 <= self.pos() <= self.tokens().len()
    }

    /// The tokens not yet consumed.
    pub open spec fn remaining(&self) -> Seq<Token> {
        self.tokens().skip(self.pos())
    }

    pub fn new(tokens: Vec<Token>) -> (d: Decoder)
        ensures
            d.wf(),
            d.tokens() == tokens@,
            d.pos() == 0,
    {
        Decoder { tokens, pos: 0 }
    }

    /// Whether the whole input has been consumed.
    pub fn is_finished(&self) -> (r: bool)
        requires
            self.wf(),
        ensures
            r == (self.remaining().len() == 0),
    {
        self.pos == self.tokens.len()
    }

    pub fn decode_bool(&mut self) -> (r: Result<bool, DecodeError>)
        requires
            old(self).wf(),
        ensures
            final(self).wf(),
            final(self).tokens() == old(self).tokens(),
            match r {
                Ok(v) => old(self).remaining().len() >= 1
                    && old(self).remaining()[0] == Token::Bool(v)
                    && final(self).pos() == old(self).pos() + 1,
                Err(e) => final(self).pos() == old(self).pos()
                    && !(old(self).remaining().len() >= 1 && old(self).remaining()[0] is Bool)
                    && e == (if old(self).remaining().len() == 0 {
                        DecodeError::UnexpectedEnd
                    } else {
                        DecodeError::UnexpectedToken
                    }),
            },
    {
        if self.pos < self.tokens.len() {
            match &self.tokens[self.pos] {
                Token::Bool(v) => {
                    let v = *v;
                    self.pos = self.pos + 1;
                    Ok(v)
                },
                _ => Err(DecodeError::UnexpectedToken),
            }
        } else {
            Err(DecodeError::UnexpectedEnd)
        }
    }

    pub fn decode_u64(&mut self) -> (r: Result<u64, DecodeError>)
        requires
            old(self).wf(),
        ensures
            final(self).wf(),
            final(self).tokens() == old(self).tokens(),
            match r {
                Ok(v) => old(self).remaining().len() >= 1
                    && old(self).remaining()[0] == Token::U64(v)
                    && final(self).pos() == old(self).pos() + 1,
                Err(e) => final(self).pos() == old(self).pos()
                    && !(old(self).remaining().len() >= 1 && old(self).remaining()[0] is U64)
                    && e == (if old(self).remaining().len() == 0 {
                        DecodeError::UnexpectedEnd
                    } else {
                        DecodeError::UnexpectedToken
                    }),
            },
    {
        if self.pos < self.tokens.len() {
            match &self.tokens[self.pos] {
                Token::U64(v) => {
                    let v = *v;
                    self.pos = self.pos + 1;
                    Ok(v)
                },
                _ => Err(DecodeError::UnexpectedToken),
            }
        } else {
            Err(DecodeError::UnexpectedEnd)
        }
    }

    pub fn decode_str(&mut self) -> (r: Result<String, DecodeError>)
        requires
            old(self).wf(),
        ensures
            final(self).wf(),
            final(self).tokens() == old(self).tokens(),
            match r {
                Ok(v) => {
                    &&& old(self).remaining().len() >= 1
                    &&& old(self).remaining()[0] matches Token::Str(s) && v@ == s@
                    &&& final(self).pos() == old(self).pos() + 1
                },
                Err(e) => final(self).pos() == old(self).pos()
                    && !(old(self).remaining().len() >= 1 && old(self).remaining()[0] is Str)
                    && e == (if old(self).remaining().len() == 0 {
                        DecodeError::UnexpectedEnd
                    } else {
                        DecodeError::UnexpectedToken
                    }),
            },
    {
        if self.pos < self.tokens.len() {
            match &self.tokens[self.pos] {
                Token::Str(s) => {
                    let v = s.clone();
                    self.pos = self.pos + 1;
                    Ok(v)
                },
                _ => Err(DecodeError::UnexpectedToken),
            }
        } else {
            Err(DecodeError::UnexpectedEnd)
        }
    }

    pub fn decode_u8(&mut self) -> (r: Result<u8, DecodeError>)
        requires
            old(self).wf(),
        ensures
            final(self).wf(),
            final(self).tokens() == old(self).tokens(),
            match r {
                Ok(v) => old(self).remaining().len() >= 1
                    && old(self).remaining()[0] == Token::U8(v)
                    && final(self).pos() == old(self).pos() + 1,
                Err(e) => final(self).pos() == old(self).pos()
                    && !(old(self).remaining().len() >= 1 && old(self).remaining()[0] is U8)
                    && e == (if old(self).remaining().len() == 0 {
                        DecodeError::UnexpectedEnd
                    } else {
                        DecodeError::UnexpectedToken
                    }),
            },
    {
        if self.pos < self.tokens.len() {
            match &self.tokens[self.pos] {
                Token::U8(v) => {
                    let v = *v;
                    self.pos = self.pos + 1;
                    Ok(v)
                },
                _ => Err(DecodeError::UnexpectedToken),
            }
        } else {
            Err(DecodeError::UnexpectedEnd)
        }
    }

    pub fn decode_u16(&mut self) -> (r: Result<u16, DecodeError>)
        requires
            old(self).wf(),
        ensures
            final(self).wf(),
            final(self).tokens() == old(self).tokens(),
            match r {
                Ok(v) => old(self).remaining().len() >= 1
                    && old(self).remaining()[0] == Token::U16(v)
                    && final(self).pos() == old(self).pos() + 1,
                Err(e) => final(self).pos() == old(self).pos()
                    && !(old(self).remaining().len() >= 1 && old(self).remaining()[0] is U16)
                    && e == (if old(self).remaining().len() == 0 {
                        DecodeError::UnexpectedEnd
                    } else {
                        DecodeError::UnexpectedToken
                    }),
            },
    {
        if self.pos < self.tokens.len() {
            match &self.tokens[self.pos] {
                Token::U16(v) => {
                    let v = *v;
                    self.pos = self.pos + 1;
                    Ok(v)
                },
                _ => Err(DecodeError::UnexpectedToken),
            }
        } else {
            Err(DecodeError::UnexpectedEnd)
        }
    }

    pub fn decode_u32(&mut self) -> (r: Result<u32, DecodeError>)
        requires
            old(self).wf(),
        ensures
            final(self).wf(),
            final(self).tokens() == old(self).tokens(),
            match r {
                Ok(v) => old(self).remaining().len() >= 1
                    && old(self).remaining()[0] == Token::U32(v)
                    && final(self).pos() == old(self).pos() + 1,
                Err(e) => final(self).pos() == old(self).pos()
                    && !(old(self).remaining().len() >= 1 && old(self).remaining()[0] is U32)
                    && e == (if old(self).remaining().len() == 0 {
                        DecodeError::UnexpectedEnd
                    } else {
                        DecodeError::UnexpectedToken
                    }),
            },
    {
        if self.pos < self.tokens.len() {
            match &self.tokens[self.pos] {
                Token::U32(v) => {
                    let v = *v;
                    self.pos = self.pos + 1;
                    Ok(v)
                },
                _ => Err(DecodeError::UnexpectedToken),
            }
        } else {
            Err(DecodeError::UnexpectedEnd)
        }
    }

    pub fn decode_u128(&mut self) -> (r: Result<u128, DecodeError>)
        requires
            old(self).wf(),
        ensures
            final(self).wf(),
            final(self).tokens() == old(self).tokens(),
            match r {
                Ok(v) => old(self).remaining().len() >= 1
                    && old(self).remaining()[0] == Token::U128(v)
                    && final(self).pos() == old(self).pos() + 1,
                Err(e) => final(self).pos() == old(self).pos()
                    && !(old(self).remaining().len() >= 1 && old(self).remaining()[0] is U128)
                    && e == (if old(self).remaining().len() == 0 {
                        DecodeError::UnexpectedEnd
                    } else {
                        DecodeError::UnexpectedToken
                    }),
            },
    {
        if self.pos < self.tokens.len() {
            match &self.tokens[self.pos] {
                Token::U128(v) => {
                    let v = *v;
                    self.pos = self.pos + 1;
                    Ok(v)
                },
                _ => Err(DecodeError::UnexpectedToken),
            }
        } else {
            Err(DecodeError::UnexpectedEnd)
        }
    }

    pub fn decode_i8(&mut self) -> (r: Result<i8, DecodeError>)
        requires
            old(self).wf(),
        ensures
            final(self).wf(),
            final(self).tokens() == old(self).tokens(),
            match r {
                Ok(v) => old(self).remaining().len() >= 1
                    && old(self).remaining()[0] == Token::I8(v)
                    && final(self).pos() == old(self).pos() + 1,
                Err(e) => final(self).pos() == old(self).pos()
                    && !(old(self).remaining().len() >= 1 && old(self).remaining()[0] is I8)
                    && e == (if old(self).remaining().len() == 0 {
                        DecodeError::UnexpectedEnd
                    } else {
                        DecodeError::UnexpectedToken
                    }),
            },
    {
        if self.pos < self.tokens.len() {
            match &self.tokens[self.pos] {
                Token::I8(v) => {
                    let v = *v;
                    self.pos = self.pos + 1;
                    Ok(v)
                },
                _ => Err(DecodeError::UnexpectedToken),
            }
        } else {
            Err(DecodeError::UnexpectedEnd)
        }
    }

    pub fn decode_i16(&mut self) -> (r: Result<i16, DecodeError>)
        requires
            old(self).wf(),
        ensures
            final(self).wf(),
            final(self).tokens() == old(self).tokens(),
            match r {
                Ok(v) => old(self).remaining().len() >= 1
                    && old(self).remaining()[0] == Token::I16(v)
                    && final(self).pos() == old(self).pos() + 1,
                Err(e) => final(self).pos() == old(self).pos()
                    && !(old(self).remaining().len() >= 1 && old(self).remaining()[0] is I16)
                    && e == (if old(self).remaining().len() == 0 {
                        DecodeError::UnexpectedEnd
                    } else {
                        DecodeError::UnexpectedToken
                    }),
            },
    {
        if self.pos < self.tokens.len() {
            match &self.tokens[self.pos] {
                Token::I16(v) => {
                    let v = *v;
                    self.pos = self.pos + 1;
                    Ok(v)
                },
                _ => Err(DecodeError::UnexpectedToken),
            }
        } else {
            Err(DecodeError::UnexpectedEnd)
        }
    }

    pub fn decode_i32(&mut self) -> (r: Result<i32, DecodeError>)
        requires
            old(self).wf(),
        ensures
            final(self).wf(),
            final(self).tokens() == old(self).tokens(),
            match r {
                Ok(v) => old(self).remaining().len() >= 1
                    && old(self).remaining()[0] == Token::I32(v)
                    && final(self).pos() == old(self).pos() + 1,
                Err(e) => final(self).pos() == old(self).pos()
                    && !(old(self).remaining().len() >= 1 && old(self).remaining()[0] is I32)
                    && e == (if old(self).remaining().len() == 0 {
                        DecodeError::UnexpectedEnd
                    } else {
                        DecodeError::UnexpectedToken
                    }),
            },
    {
        if self.pos < self.tokens.len() {
            match &self.tokens[self.pos] {
                Token::I32(v) => {
                    let v = *v;
                    self.pos = self.pos + 1;
                    Ok(v)
                },
                _ => Err(DecodeError::UnexpectedToken),
            }
        } else {
            Err(DecodeError::UnexpectedEnd)
        }
    }

    pub fn decode_i64(&mut self) -> (r: Result<i64, DecodeError>)
        requires
            old(self).wf(),
        ensures
            final(self).wf(),
            final(self).tokens() == old(self).tokens(),
            match r {
                Ok(v) => old(self).remaining().len() >= 1
                    && old(self).remaining()[0] == Token::I64(v)
                    && final(self).pos() == old(self).pos() + 1,
                Err(e) => final(self).pos() == old(self).pos()
                    && !(old(self).remaining().len() >= 1 && old(self).remaining()[0] is I64)
                    && e == (if old(self).remaining().len() == 0 {
                        DecodeError::UnexpectedEnd
                    } else {
                        DecodeError::UnexpectedToken
                    }),
            },
    {
        if self.pos < self.tokens.len() {
            match &self.tokens[self.pos] {
                Token::I64(v) => {
                    let v = *v;
                    self.pos = self.pos + 1;
                    Ok(v)
                },
                _ => Err(DecodeError::UnexpectedToken),
            }
        } else {
            Err(DecodeError::UnexpectedEnd)
        }
    }

    pub fn decode_i128(&mut self) -> (r: Result<i128, DecodeError>)
        requires
            old(self).wf(),
        ensures
            final(self).wf(),
            final(self).tokens() == old(self).tokens(),
            match r {
                Ok(v) => old(self).remaining().len() >= 1
                    && old(self).remaining()[0] == Token::I128(v)
                    && final(self).pos() == old(self).pos() + 1,
                Err(e) => final(self).pos() == old(self).pos()
                    && !(old(self).remaining().len() >= 1 && old(self).remaining()[0] is I128)
                    && e == (if old(self).remaining().len() == 0 {
                        DecodeError::UnexpectedEnd
                    } else {
                        DecodeError::UnexpectedToken
                    }),
            },
    {
        if self.pos < self.tokens.len() {
            match &self.tokens[self.pos] {
                Token::I128(v) => {
                    let v = *v;
                    self.pos = self.pos + 1;
                    Ok(v)
                },
                _ => Err(DecodeError::UnexpectedToken),
            }
        } else {
            Err(DecodeError::UnexpectedEnd)
        }
    }

    pub fn decode_bits(&mut self) -> (r: Result<Vec<bool>, DecodeError>)
        requires
            old(self).wf(),
        ensures
            final(self).wf(),
            final(self).tokens() == old(self).tokens(),
            match r {
                Ok(v) => {
                    &&& old(self).remaining().len() >= 1
                    &&& old(self).remaining()[0] matches Token::Bits(b) && v@ == b@
                    &&& final(self).pos() == old(self).pos() + 1
                },
                Err(e) => final(self).pos() == old(self).pos()
                    && !(old(self).remaining().len() >= 1 && old(self).remaining()[0] is Bits)
                    && e == (if old(self).remaining().len() == 0 {
                        DecodeError::UnexpectedEnd
                    } else {
                        DecodeError::UnexpectedToken
                    }),
            },
    {
        if self.pos < self.tokens.len() {
            match &self.tokens[self.pos] {
                Token::Bits(b) => {
                    let v = b.clone();
                    proof {
                        assert forall|i: int| 0 <= i < b@.len() implies v@[i] == b@[i] by {
                            assert(cloned::<bool>(b@[i], v@[i]));
                        }
                        assert(v@ =~= b@);
                    }
                    self.pos = self.pos + 1;
                    Ok(v)
                },
                _ => Err(DecodeError::UnexpectedToken),
            }
        } else {
            Err(DecodeError::UnexpectedEnd)
        }
    }

    /// End-of-sequence probe of the sequence-access sub-protocol: consumes
    /// the terminator if the next token is one, and otherwise leaves the
    /// cursor where it stands.
    pub fn try_end_seq(&mut self) -> (r: Result<bool, DecodeError>)
        requires
            old(self).wf(),
        ensures
            final(self).wf(),
            final(self).tokens() == old(self).tokens(),
            match r {
                Ok(true) => old(self).remaining().len() >= 1
                    && old(self).remaining()[0] is SeqEnd
                    && final(self).pos() == old(self).pos() + 1,
                Ok(false) => old(self).remaining().len() >= 1
                    && !(old(self).remaining()[0] is SeqEnd)
                    && final(self).pos() == old(self).pos(),
                Err(e) => old(self).remaining().len() == 0
                    && e == DecodeError::UnexpectedEnd
                    && final(self).pos() == old(self).pos(),
            },
    {
        if self.pos < self.tokens.len() {
            match &self.tokens[self.pos] {
                Token::SeqEnd => {
                    self.pos = self.pos + 1;
                    Ok(true)
                },
                _ => Ok(false),
            }
        } else {
            Err(DecodeError::UnexpectedEnd)
        }
    }

    /// Requests sequence access: consumes the opening delimiter.
    pub fn begin_seq(&mut self) -> (r: Result<(), DecodeError>)
        requires
            old(self).wf(),
        ensures
            final(self).wf(),
            final(self).tokens() == old(self).tokens(),
            match r {
                Ok(()) => old(self).remaining().len() >= 1
                    && old(self).remaining()[0] is SeqStart
                    && final(self).pos() == old(self).pos() + 1,
                Err(e) => final(self).pos() == old(self).pos()
                    && !(old(self).remaining().len() >= 1 && old(self).remaining()[0] is SeqStart)
                    && e == (if old(self).remaining().len() == 0 {
                        DecodeError::UnexpectedEnd
                    } else {
                        DecodeError::UnexpectedToken
                    }),
            },
    {
        if self.pos < self.tokens.len() {
            match &self.tokens[self.pos] {
                Token::SeqStart => {
                    self.pos = self.pos + 1;
                    Ok(())
                },
                _ => Err(DecodeError::UnexpectedToken),
            }
        } else {
            Err(DecodeError::UnexpectedEnd)
        }
    }
}

} // verus!
