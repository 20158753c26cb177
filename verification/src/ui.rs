//! Terminal text helpers used by the interactive surface: ANSI color
//! prefixes and the chat-kind indicators of the selection lists.

use vstd::prelude::*;
use crate::domain::ChatType;
use crate::textutil::{spec_dec_nat, fmt_u64};

verus! {

/// The ANSI escape selecting a 24-bit foreground color.
pub open spec fn spec_ansi_rgb(r: int, g: int, b: int) -> Seq<char> {
    "\u{1b}[38;2;"@ + spec_dec_nat(r as nat) + ";"@ + spec_dec_nat(g as nat) + ";"@ + spec_dec_nat(
        b as nat,
    ) + "m"@
}

/// Renders the ANSI escape selecting a 24-bit foreground color.
pub fn ansi_rgb(r: u8, g: u8, b: u8) -> (s: String)
    ensures
        s@ == spec_ansi_rgb(r as int, g as int, b as int),
{
    let mut out = String::new();
    let mut out = out.concat("\u{1b}[38;2;");
    let rv = fmt_u64(r as u64);
    let mut out = out.concat(rv.as_str());
    let mut out = out.concat(";");
    let gv = fmt_u64(g as u64);
    let mut out = out.concat(gv.as_str());
    let mut out = out.concat(";");
    let bv = fmt_u64(b as u64);
    let mut out = out.concat(bv.as_str());
    let s = out.concat("m");
    proof {
        assert(s@ =~= spec_ansi_rgb(r as int, g as int, b as int));
    }
    s
}

/// The ANSI reset suffix.
pub open spec fn spec_ansi_reset() -> Seq<char> {
    "\u{1b}[0m"@
}

/// The bracketed tag of a chat kind.
pub open spec fn spec_kind_tag(kind: ChatType) -> Seq<char> {
    match kind {
        ChatType::Private => "[U]"@,
        ChatType::Group => "[G]"@,
        ChatType::Supergroup => "[S]"@,
        ChatType::Channel => "[C]"@,
    }
}

/// The chat-kind indicator with its color: cyan for private chats, green
/// for groups and supergroups, yellow for channels.
pub open spec fn spec_chat_type_indicator(kind: ChatType) -> Seq<char> {
    (match kind {
        ChatType::Private => spec_ansi_rgb(0, 255, 255),
        ChatType::Group => spec_ansi_rgb(0, 255, 128),
        ChatType::Supergroup => spec_ansi_rgb(0, 255, 128),
        ChatType::Channel => spec_ansi_rgb(255, 255, 0),
    }) + spec_kind_tag(kind) + spec_ansi_reset()
}

/// Renders the colored chat-kind indicator.
pub fn chat_type_indicator(kind: ChatType) -> (r: String)
    ensures
        r@ == spec_chat_type_indicator(kind),
{
    let color = match kind {
        ChatType::Private => ansi_rgb(0, 255, 255),
        ChatType::Group => ansi_rgb(0, 255, 128),
        ChatType::Supergroup => ansi_rgb(0, 255, 128),
        ChatType::Channel => ansi_rgb(255, 255, 0),
    };
    let tag = match kind {
        ChatType::Private => "[U]",
        ChatType::Group => "[G]",
        ChatType::Supergroup => "[S]",
        ChatType::Channel => "[C]",
    };
    let mut s = color;
    let mut s = s.concat(tag);
    let r = s.concat("\u{1b}[0m");
    proof {
        assert(r@ =~= spec_chat_type_indicator(kind));
    }
    r
}

} // verus!
