//! The record parser: a zero-copy view of one log line.
//!
//! A log line is `timestamp \t speaker \t message`; the speaker may carry a
//! one-character status prefix (`@` or `+`) that is stripped before any
//! comparison, and the pseudo-speakers `<--`, `-->` and `--` mark
//! join/part/quit notices. A line with fewer than two tabs is malformed.

use crate::text::{find_tab, lemma_boundary_after_ascii, lemma_find_tab_props, spec_find_tab,
    TAB};
use crate::GrepError;
use vstd::prelude::*;
use vstd::string::StringSliceAdditionalSpecFns;
use vstd::utf8::*;

verus! {

broadcast use vstd::utf8::encode_utf8_valid_utf8, vstd::utf8::encode_utf8_decode_utf8,
    vstd::utf8::decode_utf8_encode_utf8;

/// The line has its two tab delimiters.
pub open spec fn has_header(bytes: Seq<u8>) -> bool {
    &&& spec_find_tab(bytes, 0) is Some
    &&& spec_find_tab(bytes, spec_find_tab(bytes, 0)->Some_0 + 1) is Some
}

/// Position of the first tab.
pub open spec fn spec_first_tab(bytes: Seq<u8>) -> int {
    spec_find_tab(bytes, 0)->Some_0
}

/// Position of the second tab.
pub open spec fn spec_second_tab(bytes: Seq<u8>) -> int {
    spec_find_tab(bytes, spec_first_tab(bytes) + 1)->Some_0
}

/// Everything before the first tab.
pub open spec fn spec_timestamp(bytes: Seq<u8>) -> Seq<u8> {
    bytes.subrange(0, spec_first_tab(bytes))
}

/// The speaker field as written, between the two tabs, prefix included.
pub open spec fn spec_nick_raw(bytes: Seq<u8>) -> Seq<u8> {
    bytes.subrange(spec_first_tab(bytes) + 1, spec_second_tab(bytes))
}

/// Everything after the second tab; further tabs are not special.
pub open spec fn spec_message(bytes: Seq<u8>) -> Seq<u8> {
    bytes.subrange(spec_second_tab(bytes) + 1, bytes.len() as int)
}

/// The `@` operator status prefix.
pub const OP_PREFIX: u8 = 64;

/// The `+` voice status prefix.
pub const VOICE_PREFIX: u8 = 43;

/// The byte `<`.
pub const ANGLE_OPEN: u8 = 60;

/// The byte `-`.
pub const DASH: u8 = 45;

/// The byte `>`.
pub const ANGLE_CLOSE: u8 = 62;

/// Drops a single leading `@` (operator) or `+` (voice) status prefix.
pub open spec fn strip_status_prefix(nick: Seq<u8>) -> Seq<u8> {
    if nick.len() > 0 && (nick[0] == OP_PREFIX || nick[0] == VOICE_PREFIX) {
        nick.drop_first()
    } else {
        nick
    }
}

/// The speaker with its status prefix stripped: what all comparisons use.
pub open spec fn spec_nick(bytes: Seq<u8>) -> Seq<u8> {
    strip_status_prefix(spec_nick_raw(bytes))
}

/// The stripped speaker is one of the join/part/quit pseudo-speakers.
pub open spec fn is_join_nick(nick: Seq<u8>) -> bool {
    ||| nick == seq![ANGLE_OPEN, DASH, DASH]
    ||| nick == seq![DASH, DASH]
    ||| nick == seq![DASH, DASH, ANGLE_CLOSE]
}

/// `has_header`, phrased over the characters of a line.
pub open spec fn line_has_header(line: Seq<char>) -> bool {
    has_header(encode_utf8(line))
}

/// The timestamp field, as characters of the line.
pub open spec fn view_timestamp(line: Seq<char>) -> Seq<char> {
    decode_utf8(spec_timestamp(encode_utf8(line)))
}

/// The stripped speaker, as characters of the line.
pub open spec fn view_nick(line: Seq<char>) -> Seq<char> {
    decode_utf8(spec_nick(encode_utf8(line)))
}

/// The message field, as characters of the line.
pub open spec fn view_message(line: Seq<char>) -> Seq<char> {
    decode_utf8(spec_message(encode_utf8(line)))
}

/// A parsed log line: byte offsets of the two delimiting tabs into the
/// borrowed line. The three fields are windows into the original text; no
/// copy is made.
#[derive(Debug)]
pub struct LineView<'a> {
    line: &'a str,
    first_tab: usize,
    second_tab: usize,
}

impl<'a> View for LineView<'a> {
    type V = Seq<char>;

    closed spec fn view(&self) -> Seq<char> {
        self.line@
    }
}

impl<'a> LineView<'a> {
    /// The stored offsets are the line's first two tab positions.
    pub closed spec fn wf(self) -> bool {
        &&& has_header(self.line.spec_bytes())
        &&& self.first_tab == spec_first_tab(self.line.spec_bytes())
        &&& self.second_tab == spec_second_tab(self.line.spec_bytes())
    }

    /// Splits a raw line at its first two tabs; a line with fewer than two
    /// tabs is rejected as malformed.
    pub fn parse(line: &'a str) -> (r: Result<LineView<'a>, GrepError>)
        ensures
            r is Ok <==> line_has_header(line@),
            r matches Ok(lv) ==> lv.wf() && lv@ == line@,
            r is Err ==> r == Err::<LineView<'a>, GrepError>(GrepError::MalformedLine),
    {
        let bytes = line.as_bytes();
        let n = bytes.len();
        match find_tab(bytes, 0) {
            None => Err(GrepError::MalformedLine),
            Some(t1) => {
                proof {
                    lemma_find_tab_props(bytes@, 0);
                }
                assert(t1 < n);
                match find_tab(bytes, t1 + 1) {
                    None => Err(GrepError::MalformedLine),
                    Some(t2) => Ok(LineView { line, first_tab: t1, second_tab: t2 }),
                }
            },
        }
    }

    /// As `parse`, for a line already known to have its two tabs.
    pub fn new(line: &'a str) -> (r: LineView<'a>)
        requires
            line_has_header(line@),
        ensures
            r.wf(),
            r@ == line@,
    {
        match Self::parse(line) {
            Ok(lv) => lv,
            Err(_) => vstd::pervasive::unreached(),
        }
    }

    /// Everything before the first tab.
    pub fn timestamp(&self) -> (r: &str)
        requires
            self.wf(),
        ensures
            r.spec_bytes() == spec_timestamp(encode_utf8(self@)),
            r@ == view_timestamp(self@),
    {
        proof {
            let bytes = self.line.spec_bytes();
            lemma_find_tab_props(bytes, 0);
            is_char_boundary_iff_not_is_continuation_byte(bytes, self.first_tab as int);
        }
        let (head, _) = self.line.split_at(self.first_tab);
        proof {
            valid_utf8_split(self.line.spec_bytes(), self.first_tab as int);
        }
        head
    }

    /// Everything after the second tab.
    pub fn message(&self) -> (r: &str)
        requires
            self.wf(),
        ensures
            r.spec_bytes() == spec_message(encode_utf8(self@)),
            r@ == view_message(self@),
    {
        let n = self.line.as_bytes().len();
        proof {
            let bytes = self.line.spec_bytes();
            lemma_find_tab_props(bytes, 0);
            lemma_find_tab_props(bytes, spec_first_tab(bytes) + 1);
            lemma_boundary_after_ascii(bytes, self.second_tab as int);
            assert(self.second_tab < n);
        }
        let (_, tail) = self.line.split_at(self.second_tab + 1);
        proof {
            valid_utf8_split(self.line.spec_bytes(), self.second_tab as int + 1);
        }
        tail
    }

    /// The speaker between the two tabs, with a single leading `@` or `+`
    /// stripped.
    pub fn nick(&self) -> (r: &str)
        requires
            self.wf(),
        ensures
            r.spec_bytes() == spec_nick(encode_utf8(self@)),
            r@ == view_nick(self@),
    {
        let ghost bytes = self.line.spec_bytes();
        proof {
            lemma_find_tab_props(bytes, 0);
            lemma_find_tab_props(bytes, spec_first_tab(bytes) + 1);
            is_char_boundary_iff_not_is_continuation_byte(bytes, self.second_tab as int);
        }
        let (head, _) = self.line.split_at(self.second_tab);
        proof {
            valid_utf8_split(bytes, self.second_tab as int);
            lemma_boundary_after_ascii(head.spec_bytes(), self.first_tab as int);
        }
        let (_, nick_raw) = head.split_at(self.first_tab + 1);
        proof {
            valid_utf8_split(head.spec_bytes(), self.first_tab as int + 1);
            assert(nick_raw.spec_bytes() =~= spec_nick_raw(bytes));
        }
        let nb = nick_raw.as_bytes();
        if nb.len() > 0 && (nb[0] == OP_PREFIX || nb[0] == VOICE_PREFIX) {
            proof {
                lemma_boundary_after_ascii(nick_raw.spec_bytes(), 0);
            }
            let (_, stripped) = nick_raw.split_at(1);
            proof {
                assert(stripped.spec_bytes() =~= spec_nick(encode_utf8(self@)));
            }
            stripped
        } else {
            nick_raw
        }
    }

    /// The stripped speaker marks a join/part/quit notice.
    pub fn is_join(&self) -> (r: bool)
        requires
            self.wf(),
        ensures
            r == is_join_nick(spec_nick(encode_utf8(self@))),
    {
        let nick = self.nick();
        let nb = nick.as_bytes();
        let r = (nb.len() == 3 && nb[0] == ANGLE_OPEN && nb[1] == DASH && nb[2] == DASH)
            || (nb.len() == 2 && nb[0] == DASH && nb[1] == DASH)
            || (nb.len() == 3 && nb[0] == DASH && nb[1] == DASH && nb[2] == ANGLE_CLOSE);
        proof {
            let n = spec_nick(encode_utf8(self@));
            if r {
                assert(n == seq![ANGLE_OPEN, DASH, DASH] || n == seq![DASH, DASH] || n == seq![DASH, DASH, ANGLE_CLOSE])
                    by {
                    if nb@.len() == 2 {
                        assert(n =~= seq![DASH, DASH]);
                    } else if nb@[0] == ANGLE_OPEN {
                        assert(n =~= seq![ANGLE_OPEN, DASH, DASH]);
                    } else {
                        assert(n =~= seq![DASH, DASH, ANGLE_CLOSE]);
                    }
                }
            }
        }
        r
    }
}

/// Concatenating the three raw fields with the two delimiting tabs gives
/// back the original line, byte for byte.
pub proof fn lemma_header_round_trip(bytes: Seq<u8>)
    requires
        has_header(bytes),
    ensures
        spec_timestamp(bytes) + seq![TAB] + spec_nick_raw(bytes) + seq![TAB] + spec_message(bytes)
            =~= bytes,
{
    lemma_find_tab_props(bytes, 0);
    lemma_find_tab_props(bytes, spec_first_tab(bytes) + 1);
}

} // verus!
