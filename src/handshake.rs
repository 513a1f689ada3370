//! The lines that open a session, and the framing of outgoing lines.
use vstd::prelude::*;

verus! {

/// The session-opening lines, in order: password, nickname, channel join, and the request
/// for the tag capability.
pub open spec fn handshake_of(oauth_token: Seq<char>, nickname: Seq<char>, channel: Seq<char>) -> Seq<
    Seq<char>,
> {
    seq![
        "PASS "@ + oauth_token,
        "NICK "@ + nickname,
        "JOIN #"@ + channel,
        "CAP REQ :twitch.tv/tags"@,
    ]
}

/// The session-opening lines (without line terminators).
pub fn handshake_lines(oauth_token: &str, nickname: &str, channel: &str) -> (r: Vec<String>)
    ensures
        r@.map_values(|x: String| x@) == handshake_of(oauth_token@, nickname@, channel@),
{
    let mut pass = String::from_str("PASS ");
    pass.append(oauth_token);
    let mut nick = String::from_str("NICK ");
    nick.append(nickname);
    let mut join = String::from_str("JOIN #");
    join.append(channel);
    let cap = String::from_str("CAP REQ :twitch.tv/tags");
    let r = vec![pass, nick, join, cap];
    assert(r@.map_values(|x: String| x@) =~= handshake_of(oauth_token@, nickname@, channel@));
    r
}

/// A line as written to the wire: followed by carriage return and line feed.
pub fn frame_line(line: &str) -> (r: String)
    ensures
        r@ == line@ + "\r\n"@,
{
    let mut r = String::from_str(line);
    r.append("\r\n");
    r
}

} // verus!
