//! The user-facing reply strings, each specified character for character.

use vstd::prelude::*;
use vstd::string::StringExecFns;

use crate::numfmt::dec_digits;
use crate::numfmt::u64_to_string;

verus! {

/// Confirmation for a freshly configured channel.
pub open spec fn created_reply(limit: nat, ch: nat) -> Seq<char> {
    "Created limit "@ + dec_digits(limit) + " for channel <#"@ + dec_digits(ch)
        + ">, and I'm already purging older messages!"@
}

/// Log line for a limit replayed from the persistent store at startup.
pub open spec fn init_reply(ch: nat, limit: nat) -> Seq<char> {
    "Initialized channel "@ + dec_digits(ch) + " limit to "@ + dec_digits(limit)
}

/// Acknowledgment when the requested limit is already in force.
pub open spec fn already_reply(limit: nat, ch: nat) -> Seq<char> {
    dec_digits(limit) + " already is the limit for <#"@ + dec_digits(ch) + ">!"@
}

/// Confirmation for a raised limit.
pub open spec fn increased_reply(ch: nat, old_limit: nat, new_limit: nat) -> Seq<char> {
    "Okay, I increased the limit of <#"@ + dec_digits(ch) + "> from "@ + dec_digits(old_limit)
        + " to "@ + dec_digits(new_limit) + "!"@
}

/// Confirmation for a lowered limit.
pub open spec fn decreased_reply(ch: nat, old_limit: nat, new_limit: nat) -> Seq<char> {
    "Okay, I decreased the limit of <#"@ + dec_digits(ch) + "> from "@ + dec_digits(old_limit)
        + " to "@ + dec_digits(new_limit) + ", and I'm already purging older messages!"@
}

/// Confirmation for a removed limit.
pub open spec fn removed_reply(limit: nat, ch: nat) -> Seq<char> {
    "Removed limit ("@ + dec_digits(limit) + ") from <#"@ + dec_digits(ch) + ">"@
}

/// Rejection when removal is asked of an unconfigured channel.
pub open spec fn no_limit_reply(ch: nat) -> Seq<char> {
    "<#"@ + dec_digits(ch) + "> doesn't have a limit!"@
}

/// One line of the status report.
pub open spec fn status_line(ch: nat, len: nat, limit: nat, pct: nat) -> Seq<char> {
    "- <#"@ + dec_digits(ch) + "> | "@ + dec_digits(len) + " / "@ + dec_digits(limit) + " ("@
        + dec_digits(pct) + "% full)\n"@
}

/// Appends the decimal rendering of `n`.
fn append_u64(s: &mut String, n: u64)
    ensures
        final(s)@ == old(s)@ + dec_digits(n as nat),
{
    let d = u64_to_string(n);
    s.append(d.as_str());
}

pub fn render_created(limit: u64, ch: u64) -> (r: String)
    ensures
        r@ == created_reply(limit as nat, ch as nat),
{
    let mut s = "Created limit ".to_owned();
    append_u64(&mut s, limit);
    s.append(" for channel <#");
    append_u64(&mut s, ch);
    s.append(">, and I'm already purging older messages!");
    proof {
        assert(s@ =~= created_reply(limit as nat, ch as nat));
    }
    s
}

pub fn render_init(ch: u64, limit: u64) -> (r: String)
    ensures
        r@ == init_reply(ch as nat, limit as nat),
{
    let mut s = "Initialized channel ".to_owned();
    append_u64(&mut s, ch);
    s.append(" limit to ");
    append_u64(&mut s, limit);
    proof {
        assert(s@ =~= init_reply(ch as nat, limit as nat));
    }
    s
}

pub fn render_already(limit: u64, ch: u64) -> (r: String)
    ensures
        r@ == already_reply(limit as nat, ch as nat),
{
    let mut s = u64_to_string(limit);
    s.append(" already is the limit for <#");
    append_u64(&mut s, ch);
    s.append(">!");
    proof {
        assert(s@ =~= already_reply(limit as nat, ch as nat));
    }
    s
}

pub fn render_increased(ch: u64, old_limit: u64, new_limit: u64) -> (r: String)
    ensures
        r@ == increased_reply(ch as nat, old_limit as nat, new_limit as nat),
{
    let mut s = "Okay, I increased the limit of <#".to_owned();
    append_u64(&mut s, ch);
    s.append("> from ");
    append_u64(&mut s, old_limit);
    s.append(" to ");
    append_u64(&mut s, new_limit);
    s.append("!");
    proof {
        assert(s@ =~= increased_reply(ch as nat, old_limit as nat, new_limit as nat));
    }
    s
}

pub fn render_decreased(ch: u64, old_limit: u64, new_limit: u64) -> (r: String)
    ensures
        r@ == decreased_reply(ch as nat, old_limit as nat, new_limit as nat),
{
    let mut s = "Okay, I decreased the limit of <#".to_owned();
    append_u64(&mut s, ch);
    s.append("> from ");
    append_u64(&mut s, old_limit);
    s.append(" to ");
    append_u64(&mut s, new_limit);
    s.append(", and I'm already purging older messages!");
    proof {
        assert(s@ =~= decreased_reply(ch as nat, old_limit as nat, new_limit as nat));
    }
    s
}

pub fn render_removed(limit: u64, ch: u64) -> (r: String)
    ensures
        r@ == removed_reply(limit as nat, ch as nat),
{
    let mut s = "Removed limit (".to_owned();
    append_u64(&mut s, limit);
    s.append(") from <#");
    append_u64(&mut s, ch);
    s.append(">");
    proof {
        assert(s@ =~= removed_reply(limit as nat, ch as nat));
    }
    s
}

pub fn render_no_limit(ch: u64) -> (r: String)
    ensures
        r@ == no_limit_reply(ch as nat),
{
    let mut s = "<#".to_owned();
    append_u64(&mut s, ch);
    s.append("> doesn't have a limit!");
    proof {
        assert(s@ =~= no_limit_reply(ch as nat));
    }
    s
}

pub fn render_status_line(ch: u64, len: u64, limit: u64, pct: u64) -> (r: String)
    ensures
        r@ == status_line(ch as nat, len as nat, limit as nat, pct as nat),
{
    let mut s = "- <#".to_owned();
    append_u64(&mut s, ch);
    s.append("> | ");
    append_u64(&mut s, len);
    s.append(" / ");
    append_u64(&mut s, limit);
    s.append(" (");
    append_u64(&mut s, pct);
    s.append("% full)\n");
    proof {
        assert(s@ =~= status_line(ch as nat, len as nat, limit as nat, pct as nat));
    }
    s
}

} // verus!
