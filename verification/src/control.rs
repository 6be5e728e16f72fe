//! The control channel: the line-oriented command grammar spoken with the
//! companion process, and the JSON rendering of the peer snapshot.
//!
//! A line is trimmed and parsed into a command; unrecognized or malformed
//! lines parse to nothing and are ignored. `GET_PEERS` is answered inline
//! with a JSON array of `{id, alias, device_model}` objects whose field
//! names never change; the send commands are fire-and-forget.

use vstd::prelude::*;
use crate::model::{PeerInfo, PeerInfoV};
use crate::strutil::{first_index_of, hex_digit_char, hex_digit_str, is_prefix, starts_with,
    str_eq};

verus! {

/// Line whitespace stripped from both ends of a command line.
pub open spec fn is_lws(c: char) -> bool {
    c == ' ' || c == '\t' || c == '\r' || c == '\n'
}

/// Length of the whitespace prefix of `s`.
pub open spec fn ws_prefix_len(s: Seq<char>) -> int
    decreases s.len(),
{
    if s.len() == 0 || !is_lws(s[0]) {
        0
    } else {
        1 + ws_prefix_len(s.drop_first())
    }
}

/// Start of the whitespace suffix of `s`.
pub open spec fn ws_suffix_start(s: Seq<char>) -> int
    decreases s.len(),
{
    if s.len() == 0 || !is_lws(s.last()) {
        s.len() as int
    } else {
        ws_suffix_start(s.drop_last())
    }
}

/// `s` without leading and trailing whitespace.
pub open spec fn trim_spec(s: Seq<char>) -> Seq<char> {
    if ws_prefix_len(s) < ws_suffix_start(s) {
        s.subrange(ws_prefix_len(s), ws_suffix_start(s))
    } else {
        Seq::empty()
    }
}

proof fn lemma_ws_prefix_at(s: Seq<char>, a: int)
    requires
        0 <= a <= s.len(),
        forall|j: int| 0 <= j < a ==> is_lws(s[j]),
        a < s.len() ==> !is_lws(s[a]),
    ensures
        ws_prefix_len(s) == a,
    decreases a,
{
    if a == 0 {
    } else {
        assert(is_lws(s[0]));
        let t = s.drop_first();
        assert(forall|j: int| 0 <= j < a - 1 ==> s[j + 1] == t[j]);
        lemma_ws_prefix_at(t, a - 1);
    }
}

proof fn lemma_ws_suffix_at(s: Seq<char>, b: int)
    requires
        0 <= b <= s.len(),
        forall|j: int| b <= j < s.len() ==> is_lws(s[j]),
        b > 0 ==> !is_lws(s[b - 1]),
    ensures
        ws_suffix_start(s) == b,
    decreases s.len() - b,
{
    if b == s.len() {
        if s.len() > 0 {
            assert(!is_lws(s.last()));
        }
    } else {
        assert(is_lws(s.last()));
        let t = s.drop_last();
        assert(forall|j: int| 0 <= j < t.len() ==> t[j] == s[j]);
        lemma_ws_suffix_at(t, b);
    }
}

proof fn lemma_ws_suffix_bounds(s: Seq<char>)
    ensures
        0 <= ws_suffix_start(s) <= s.len(),
    decreases s.len(),
{
    if !(s.len() == 0 || !is_lws(s.last())) {
        lemma_ws_suffix_bounds(s.drop_last());
    }
}

/// Trims line whitespace from both ends.
pub fn trim_line(s: &str) -> (r: String)
    ensures
        r@ == trim_spec(s@),
{
    let len = s.unicode_len();
    let mut a: usize = 0;
    while a < len && is_lws_exec(s.get_char(a))
        invariant
            len == s@.len(),
            a <= len,
            forall|j: int| 0 <= j < a ==> is_lws(s@[j]),
        decreases len - a,
    {
        a += 1;
    }
    proof {
        lemma_ws_prefix_at(s@, a as int);
    }
    let mut b: usize = len;
    while b > a && is_lws_exec(s.get_char(b - 1))
        invariant
            len == s@.len(),
            a <= b <= len,
            forall|j: int| b <= j < len ==> is_lws(s@[j]),
        decreases b,
    {
        b -= 1;
    }
    if b == a {
        // The back scan met the front scan: the whole line is whitespace
        // (a non-whitespace character at the meeting point would have
        // stopped both scans), so the trim is empty.
        proof {
            if a < len {
                assert(!is_lws(s@[a as int]));
                assert(is_lws(s@[a as int]));
            }
            lemma_ws_suffix_bounds(s@);
            assert(ws_prefix_len(s@) == len);
        }
        let empty: &str = "";
        proof {
            reveal_strlit("");
            assert(empty@ =~= Seq::<char>::empty());
            assert(trim_spec(s@) =~= Seq::<char>::empty());
        }
        empty.to_owned()
    } else {
        proof {
            assert(!is_lws(s@[b as int - 1]));
            lemma_ws_suffix_at(s@, b as int);
        }
        let r = s.substring_char(a, b);
        proof {
            assert(r@ =~= trim_spec(s@));
        }
        r.to_owned()
    }
}

/// Whitespace test on one character.
fn is_lws_exec(c: char) -> (r: bool)
    ensures
        r == is_lws(c),
{
    c == ' ' || c == '\t' || c == '\r' || c == '\n'
}

/// A parsed control-channel command.
pub enum Command {
    /// Answer with the peer snapshot, inline on the same connection.
    GetPeers,
    /// Send a text payload, to the named peer or to whoever is known.
    SendText { target: Option<String>, payload: String },
    /// Send a file by path, to the named peer or to whoever is known.
    SendFile { target: Option<String>, path: String },
}

/// View of a [`Command`].
pub enum CommandV {
    GetPeers,
    SendText { target: Option<Seq<char>>, payload: Seq<char> },
    SendFile { target: Option<Seq<char>>, path: Seq<char> },
}

impl DeepView for Command {
    type V = CommandV;

    open spec fn deep_view(&self) -> CommandV {
        match self {
            Command::GetPeers => CommandV::GetPeers,
            Command::SendText { target, payload } => CommandV::SendText {
                target: target.deep_view(),
                payload: payload@,
            },
            Command::SendFile { target, path } => CommandV::SendFile {
                target: target.deep_view(),
                path: path@,
            },
        }
    }
}

/// `i` is the position of the first colon of `s`.
pub open spec fn colon_at(s: Seq<char>, i: int) -> bool {
    &&& 0 <= i < s.len()
    &&& s[i] == ':'
    &&& forall|j: int| 0 <= j < i ==> s[j] != ':'
}

/// `s` contains a colon.
pub open spec fn has_colon(s: Seq<char>) -> bool {
    exists|i: int| colon_at(s, i)
}

/// Position of the first colon.
pub open spec fn colon_index(s: Seq<char>) -> int {
    choose|i: int| colon_at(s, i)
}

proof fn lemma_colon_at(s: Seq<char>, i: int)
    requires
        colon_at(s, i),
    ensures
        has_colon(s),
        colon_index(s) == i,
{
    let j = colon_index(s);
    assert(colon_at(s, j));
    if i < j {
        assert(s[i] != ':');
    } else if j < i {
        assert(s[j] != ':');
    }
}

/// Splits `id:payload` at the first colon.
pub open spec fn split_target(rest: Seq<char>) -> Option<(Seq<char>, Seq<char>)> {
    if has_colon(rest) {
        Some(
            (
                rest.subrange(0, colon_index(rest)),
                rest.subrange(colon_index(rest) + 1, rest.len() as int),
            ),
        )
    } else {
        None
    }
}

/// The command grammar: one verb per line; `_TO` variants carry a target id
/// before the first colon of the remainder; anything else is ignored.
pub open spec fn parse_line_spec(s: Seq<char>) -> Option<CommandV> {
    if s == "GET_PEERS"@ {
        Some(CommandV::GetPeers)
    } else if is_prefix(s, "SEND_TEXT:"@) {
        Some(
            CommandV::SendText {
                target: None,
                payload: s.skip("SEND_TEXT:"@.len() as int),
            },
        )
    } else if is_prefix(s, "SEND_TEXT_TO:"@) {
        match split_target(s.skip("SEND_TEXT_TO:"@.len() as int)) {
            Some(tp) => Some(CommandV::SendText { target: Some(tp.0), payload: tp.1 }),
            None => None,
        }
    } else if is_prefix(s, "SEND_FILE:"@) {
        Some(
            CommandV::SendFile {
                target: None,
                path: s.skip("SEND_FILE:"@.len() as int),
            },
        )
    } else if is_prefix(s, "SEND_FILE_TO:"@) {
        match split_target(s.skip("SEND_FILE_TO:"@.len() as int)) {
            Some(tp) => Some(CommandV::SendFile { target: Some(tp.0), path: tp.1 }),
            None => None,
        }
    } else {
        None
    }
}

/// Splits the remainder of a `_TO` verb at its first colon.
fn split_target_exec(rest: &str) -> (r: Option<(String, String)>)
    ensures
        match r {
            Some(tp) => split_target(rest@) == Some((tp.0@, tp.1@)),
            None => split_target(rest@) is None,
        },
{
    let len = rest.unicode_len();
    match first_index_of(rest, ':') {
        Some(i) => {
            proof {
                lemma_colon_at(rest@, i as int);
            }
            let target = rest.substring_char(0, i);
            let payload = rest.substring_char(i + 1, len);
            Some((target.to_owned(), payload.to_owned()))
        },
        None => {
            proof {
                assert(!has_colon(rest@)) by {
                    if has_colon(rest@) {
                        let i = colon_index(rest@);
                        assert(colon_at(rest@, i));
                        assert(rest@[i] == ':');
                    }
                }
            }
            None
        },
    }
}

/// Parses one already-trimmed command line.
pub fn parse_line(line: &str) -> (r: Option<Command>)
    ensures
        r.deep_view() == parse_line_spec(line@),
{
    let len = line.unicode_len();
    if str_eq(line, "GET_PEERS") {
        return Some(Command::GetPeers);
    }
    if starts_with(line, "SEND_TEXT:") {
        let plen = "SEND_TEXT:".unicode_len();
        let payload = line.substring_char(plen, len);
        proof {
            assert(payload@ =~= line@.skip("SEND_TEXT:"@.len() as int));
        }
        return Some(Command::SendText { target: None, payload: payload.to_owned() });
    }
    if starts_with(line, "SEND_TEXT_TO:") {
        let plen = "SEND_TEXT_TO:".unicode_len();
        let rest = line.substring_char(plen, len);
        proof {
            assert(rest@ =~= line@.skip("SEND_TEXT_TO:"@.len() as int));
        }
        return match split_target_exec(rest) {
            Some(tp) => Some(Command::SendText { target: Some(tp.0), payload: tp.1 }),
            None => None,
        };
    }
    if starts_with(line, "SEND_FILE:") {
        let plen = "SEND_FILE:".unicode_len();
        let path = line.substring_char(plen, len);
        proof {
            assert(path@ =~= line@.skip("SEND_FILE:"@.len() as int));
        }
        return Some(Command::SendFile { target: None, path: path.to_owned() });
    }
    if starts_with(line, "SEND_FILE_TO:") {
        let plen = "SEND_FILE_TO:".unicode_len();
        let rest = line.substring_char(plen, len);
        proof {
            assert(rest@ =~= line@.skip("SEND_FILE_TO:"@.len() as int));
        }
        return match split_target_exec(rest) {
            Some(tp) => Some(Command::SendFile { target: Some(tp.0), path: tp.1 }),
            None => None,
        };
    }
    None
}

/// JSON escape of one character: quote, backslash and the common control
/// characters get a short escape, the remaining control characters a
/// `\u00XX` escape, everything else stands as itself.
pub open spec fn json_escape_char(c: char) -> Seq<char> {
    if c == '"' {
        seq!['\\', '"']
    } else if c == '\\' {
        seq!['\\', '\\']
    } else if c == '\n' {
        seq!['\\', 'n']
    } else if c == '\r' {
        seq!['\\', 'r']
    } else if c == '\t' {
        seq!['\\', 't']
    } else if (c as u32) < 32 {
        seq![
            '\\',
            'u',
            '0',
            '0',
            hex_digit_char((c as u32 / 16) as nat),
            hex_digit_char((c as u32 % 16) as nat),
        ]
    } else {
        seq![c]
    }
}

/// JSON escape of a string, character by character.
pub open spec fn json_escape(s: Seq<char>) -> Seq<char>
    decreases s.len(),
{
    if s.len() == 0 {
        Seq::empty()
    } else {
        json_escape(s.drop_last()) + json_escape_char(s.last())
    }
}

/// Escapes `s` for embedding in a JSON string literal.
pub fn json_escape_str(s: &str) -> (r: String)
    ensures
        r@ == json_escape(s@),
{
    let len = s.unicode_len();
    let mut out = String::new();
    let mut i: usize = 0;
    while i < len
        invariant
            len == s@.len(),
            i <= len,
            out@ == json_escape(s@.subrange(0, i as int)),
        decreases len - i,
    {
        let c = s.get_char(i);
        if c == '"' {
            out.append("\\\"");
            proof {
                reveal_strlit("\\\"");
                assert(json_escape_char(c) =~= "\\\""@);
            }
        } else if c == '\\' {
            out.append("\\\\");
            proof {
                reveal_strlit("\\\\");
                assert(json_escape_char(c) =~= "\\\\"@);
            }
        } else if c == '\n' {
            out.append("\\n");
            proof {
                reveal_strlit("\\n");
                assert(json_escape_char(c) =~= "\\n"@);
            }
        } else if c == '\r' {
            out.append("\\r");
            proof {
                reveal_strlit("\\r");
                assert(json_escape_char(c) =~= "\\r"@);
            }
        } else if c == '\t' {
            out.append("\\t");
            proof {
                reveal_strlit("\\t");
                assert(json_escape_char(c) =~= "\\t"@);
            }
        } else if (c as u32) < 32 {
            out.append("\\u00");
            out.append(hex_digit_str((c as u32) / 16));
            out.append(hex_digit_str((c as u32) % 16));
            proof {
                reveal_strlit("\\u00");
                assert(json_escape_char(c) =~= "\\u00"@ + seq![
                    hex_digit_char((c as u32 / 16) as nat),
                ] + seq![hex_digit_char((c as u32 % 16) as nat)]);
            }
        } else {
            let piece = s.substring_char(i, i + 1);
            out.append(piece);
            proof {
                assert(piece@ =~= seq![c]);
                assert(json_escape_char(c) =~= seq![c]);
            }
        }
        i += 1;
        proof {
            assert(s@.subrange(0, i as int).drop_last() =~= s@.subrange(0, i as int - 1));
            assert(s@.subrange(0, i as int).last() == c);
        }
    }
    proof {
        assert(s@.subrange(0, len as int) =~= s@);
    }
    out
}

/// The advertised model, or the fixed stand-in when none was advertised.
pub open spec fn model_or_unknown(m: Option<Seq<char>>) -> Seq<char> {
    match m {
        Some(s) => s,
        None => "Unknown"@,
    }
}

/// One peer as a JSON object with the three stable fields.
pub open spec fn peer_json_obj(p: PeerInfoV) -> Seq<char> {
    "{\"id\":\""@ + json_escape(p.id) + "\",\"alias\":\""@ + json_escape(p.info.alias)
        + "\",\"device_model\":\""@ + json_escape(model_or_unknown(p.info.device_model)) + "\"}"@
}

/// The peers joined with commas, in snapshot order.
pub open spec fn peers_json_items(ps: Seq<PeerInfoV>) -> Seq<char>
    decreases ps.len(),
{
    if ps.len() == 0 {
        Seq::empty()
    } else if ps.len() == 1 {
        peer_json_obj(ps[0])
    } else {
        peers_json_items(ps.drop_last()) + ","@ + peer_json_obj(ps.last())
    }
}

/// The whole `GET_PEERS` answer: a JSON array, `[]` when nothing is known.
pub open spec fn peers_json_spec(ps: Seq<PeerInfoV>) -> Seq<char> {
    "["@ + peers_json_items(ps) + "]"@
}

/// An empty registry serializes to the empty JSON array, not an error.
pub proof fn lemma_peers_json_empty()
    ensures
        peers_json_spec(Seq::<PeerInfoV>::empty()) == "[]"@,
{
    reveal_strlit("[");
    reveal_strlit("]");
    reveal_strlit("[]");
    assert(peers_json_spec(Seq::<PeerInfoV>::empty()) =~= "[]"@);
}

/// Renders one peer as a JSON object.
fn peer_json(p: &PeerInfo) -> (r: String)
    ensures
        r@ == peer_json_obj(p.deep_view()),
{
    let mut out = String::new();
    out.append("{\"id\":\"");
    let id = json_escape_str(p.id.as_str());
    out.append(id.as_str());
    out.append("\",\"alias\":\"");
    let alias = json_escape_str(p.info.alias.as_str());
    out.append(alias.as_str());
    out.append("\",\"device_model\":\"");
    let model = match &p.info.device_model {
        Some(m) => json_escape_str(m.as_str()),
        None => json_escape_str("Unknown"),
    };
    out.append(model.as_str());
    out.append("\"}");
    proof {
        assert(out@ =~= peer_json_obj(p.deep_view()));
    }
    out
}

/// Serializes a peer snapshot as the `GET_PEERS` answer.
pub fn peers_json(peers: &Vec<PeerInfo>) -> (r: String)
    ensures
        r@ == peers_json_spec(peers.deep_view()),
{
    let n = peers.len();
    let mut out = String::new();
    out.append("[");
    let mut i: usize = 0;
    while i < n
        invariant
            n == peers.len(),
            i <= n,
            out@ == "["@ + peers_json_items(peers.deep_view().subrange(0, i as int)),
        decreases n - i,
    {
        if i > 0 {
            out.append(",");
        }
        assert(peers.deep_view()[i as int] == peers[i as int].deep_view());
        let obj = peer_json(&peers[i]);
        out.append(obj.as_str());
        i += 1;
        proof {
            let pre = peers.deep_view().subrange(0, i as int);
            assert(pre.drop_last() =~= peers.deep_view().subrange(0, i as int - 1));
            assert(pre.last() == peers.deep_view()[i as int - 1]);
            assert(out@ =~= "["@ + peers_json_items(pre));
        }
    }
    out.append("]");
    proof {
        assert(peers.deep_view().subrange(0, n as int) =~= peers.deep_view());
        assert(out@ =~= peers_json_spec(peers.deep_view()));
    }
    out
}

} // verus!
