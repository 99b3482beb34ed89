//! Colours for a terminal, as escape sequences.

use vstd::prelude::*;
use crate::utils::text::{is_ascii_bytes, lemma_decimal, padded, push_decimal, string_of_ascii};

verus! {

pub const RESET: &'static str = "\x1b[0m";

pub const GRAY: &'static str = "\x1b[38;5;243m";

pub const RED: &'static str = "\x1b[38;5;1m";

pub const GREEN: &'static str = "\x1b[38;5;46m";

pub const DARK_GREEN: &'static str = "\x1b[38;5;34m";

pub const YELLOW: &'static str = "\x1b[38;5;226m";

pub const CYAN: &'static str = "\x1b[38;5;51m";

/// The bytes of the sequence that sets the colour of the text, or that of
/// the background where `bg` is set, to the given red, green and blue:
/// escape, `[`, `38` or `48`, `;2;`, the three numbers in decimal with
/// `;` between them, and `m`.
pub open spec fn rgb_bytes(r: u8, g: u8, b: u8, bg: bool) -> Seq<u8> {
    seq![0x1bu8, 0x5b, if bg {
        52u8
    } else {
        51u8
    }, 56, 59, 50, 59] + padded(r as nat, 0) + seq![59u8] + padded(g as nat, 0) + seq![59u8]
        + padded(b as nat, 0) + seq![109u8]
}

/// The sequence that sets the colour of the text or of the background.
pub fn rgb(r: u8, g: u8, b: u8, bg: bool) -> (s: String)
    ensures
        vstd::utf8::encode_utf8(s@) == rgb_bytes(r, g, b, bg),
{
    let mut out: Vec<u8> = Vec::new();
    out.push(0x1b);
    out.push(0x5b);
    out.push(
        if bg {
            52
        } else {
            51
        },
    );
    out.push(56);
    out.push(59);
    out.push(50);
    out.push(59);
    push_decimal(&mut out, r as u64, 0);
    out.push(59);
    push_decimal(&mut out, g as u64, 0);
    out.push(59);
    push_decimal(&mut out, b as u64, 0);
    out.push(109);
    proof {
        lemma_decimal(r as nat);
        lemma_decimal(g as nat);
        lemma_decimal(b as nat);
        assert(out@ =~= rgb_bytes(r, g, b, bg));
        assert(is_ascii_bytes(out@));
    }
    string_of_ascii(out)
}

} // verus!
