//! The control surface driven through the `wg` command: the reading of its
//! outputs. Running the command is left to the caller.

use super::config::ParseError;
use super::{Key, SocketAddr, key_of_text, parse_socket_addr, socket_addr_of};
use crate::text::{chars_of, find, find_char, parse_uint, parse_unsigned, split, split_ranges, substring, trim, trim_range};
use vstd::prelude::*;

verus! {

/// The control surface that runs the `wg` command.
#[derive(Debug, Clone, Copy, PartialEq, Eq)]
pub struct WgCmdBackend;

/// One line of `wg show <iface> endpoints`: a key, a tab, and the peer's
/// socket address or a placeholder for none.
pub open spec fn endpoint_line_of(line: Seq<char>) -> Result<(Seq<u8>, Option<(Seq<u8>, u16)>), ParseError> {
    match find(line, '\t') {
        None => Err(ParseError::PeerParseError),
        Some(i) => match key_of_text(trim(line.subrange(0, i))) {
            None => Err(ParseError::KeyParseError),
            Some(k) => Ok((k, socket_addr_of(trim(line.subrange(i + 1, line.len() as int))))),
        },
    }
}

/// The entries of the lines of `wg show <iface> endpoints`; blank lines are
/// skipped and the first bad line is the result.
pub open spec fn endpoint_lines_of(ls: Seq<Seq<char>>) -> Result<Seq<(Seq<u8>, Option<(Seq<u8>, u16)>)>, ParseError>
    decreases ls.len(),
{
    if ls.len() == 0 {
        Ok(Seq::empty())
    } else if trim(ls[0]).len() == 0 {
        endpoint_lines_of(ls.drop_first())
    } else {
        match endpoint_line_of(ls[0]) {
            Err(e) => Err(e),
            Ok(x) => match endpoint_lines_of(ls.drop_first()) {
                Ok(rest) => Ok(seq![x] + rest),
                Err(e) => Err(e),
            },
        }
    }
}

pub open spec fn entry_view(e: (Key, Option<SocketAddr>)) -> (Seq<u8>, Option<(Seq<u8>, u16)>) {
    (e.0@, match e.1 {
        Some(a) => Some((a.ip@, a.port)),
        None => None,
    })
}

impl WgCmdBackend {
    pub fn new() -> (r: WgCmdBackend) {
        WgCmdBackend
    }

    /// The key printed by `wg show <iface> public-key`.
    pub fn parse_pub_key(out: &str) -> (r: Result<Key, ParseError>)
        ensures
            match key_of_text(trim(out@)) {
                Some(b) => r matches Ok(k) && k@ == b,
                None => r == Err::<Key, ParseError>(ParseError::KeyParseError),
            },
    {
        let v = chars_of(out);
        let (a, b) = trim_range(&v, 0, v.len());
        assert(v@.subrange(0, v@.len() as int) =~= out@);
        let text = substring(out, &v, a, b);
        Key::parse(text.as_str())
    }

    /// The port printed by `wg show <iface> listen-port`.
    pub fn parse_listen_port(out: &str) -> (r: Result<u16, ParseError>)
        ensures
            match parse_unsigned(trim(out@), 65535) {
                Some(n) => r == Ok::<u16, ParseError>(n as u16),
                None => r == Err::<u16, ParseError>(ParseError::ParseIntError),
            },
    {
        let v = chars_of(out);
        let (a, b) = trim_range(&v, 0, v.len());
        assert(v@.subrange(0, v@.len() as int) =~= out@);
        match parse_uint(&v, a, b, 65535) {
            Some(n) => Ok(n as u16),
            None => Err(ParseError::ParseIntError),
        }
    }

    /// The entries printed by `wg show <iface> endpoints`, in order.
    pub fn parse_endpoints(out: &str) -> (r: Result<Vec<(Key, Option<SocketAddr>)>, ParseError>)
        ensures
            match endpoint_lines_of(split(out@, '\n')) {
                Ok(l) => r matches Ok(x) && x@.map_values(|e: (Key, Option<SocketAddr>)| entry_view(e)) == l,
                Err(e) => r == Err::<Vec<(Key, Option<SocketAddr>)>, ParseError>(e),
            },
    {
        let v = chars_of(out);
        let n = v.len();
        assert(v@.subrange(0, n as int) =~= out@);
        let ghost ls = split(out@, '\n');
        let lines = split_ranges(&v, 0, n, '\n');
        let mut acc: Vec<(Key, Option<SocketAddr>)> = Vec::new();
        let mut k: usize = 0;
        assert(ls.subrange(0, ls.len() as int) =~= ls);
        assert(acc@.map_values(|e: (Key, Option<SocketAddr>)| entry_view(e)) =~= Seq::empty());
        proof {
            match endpoint_lines_of(ls) {
                Ok(l) => {
                    assert(acc@.map_values(|e: (Key, Option<SocketAddr>)| entry_view(e)) + l =~= l);
                },
                Err(e) => {},
            }
        }
        while k < lines.len()
            invariant
                v@ == out@,
                n == v@.len(),
                ls == split(out@, '\n'),
                lines@.len() == ls.len(),
                k <= lines@.len(),
                forall|j: int|
                    0 <= j < lines@.len() ==> {
                        &&& 0 <= (#[trigger] lines@[j]).0 <= lines@[j].1 <= n
                        &&& v@.subrange(lines@[j].0 as int, lines@[j].1 as int) == ls[j]
                    },
                endpoint_lines_of(ls) == match endpoint_lines_of(ls.subrange(k as int, ls.len() as int)) {
                    Ok(rest) => Ok(acc@.map_values(|e: (Key, Option<SocketAddr>)| entry_view(e)) + rest),
                    Err(e) => Err(e),
                },
            decreases lines@.len() - k,
        {
            let (lo, hi) = lines[k];
            assert(lines@[k as int] == (lo, hi));
            let ghost line = ls[k as int];
            let ghost tail = ls.subrange(k as int, ls.len() as int);
            assert(tail[0] == line);
            assert(tail.drop_first() =~= ls.subrange(k + 1, ls.len() as int));
            let (ta, tb) = trim_range(&v, lo, hi);
            if ta < tb {
                let tab = find_char(&v, lo, hi, '\t');
                match tab {
                    None => {
                        return Err(ParseError::PeerParseError);
                    },
                    Some(i) => {
                        assert(find(line, '\t') == Some((i - lo) as int));
                        assert(line.subrange(0, i - lo) =~= v@.subrange(lo as int, i as int));
                        assert(line.subrange(i - lo + 1, line.len() as int) =~= v@.subrange(i + 1, hi as int));
                        let (ka, kb) = trim_range(&v, lo, i);
                        let text = substring(out, &v, ka, kb);
                        let key = match Key::parse(text.as_str()) {
                            Ok(key) => key,
                            Err(e) => {
                                return Err(e);
                            },
                        };
                        let (aa, ab) = trim_range(&v, i + 1, hi);
                        let addr = parse_socket_addr(&v, aa, ab);
                        let ghost before = acc@.map_values(|e: (Key, Option<SocketAddr>)| entry_view(e));
                        acc.push((key, addr));
                        assert(acc@.map_values(|e: (Key, Option<SocketAddr>)| entry_view(e)) =~= before.push(entry_view((key, addr))));
                        assert(endpoint_line_of(line) == Ok::<(Seq<u8>, Option<(Seq<u8>, u16)>), ParseError>(entry_view((key, addr))));
                        proof {
                            match endpoint_lines_of(ls.subrange(k + 1, ls.len() as int)) {
                                Ok(rest) => {
                                    assert(before + (seq![entry_view((key, addr))] + rest) =~= before.push(entry_view((key, addr))) + rest);
                                },
                                Err(e) => {},
                            }
                        }
                    },
                }
            }
            k = k + 1;
        }
        assert(ls.subrange(k as int, ls.len() as int) =~= Seq::<Seq<char>>::empty());
        assert(acc@.map_values(|e: (Key, Option<SocketAddr>)| entry_view(e)) + Seq::empty() =~= acc@.map_values(|e: (Key, Option<SocketAddr>)| entry_view(e)));
        Ok(acc)
    }
}

} // verus!
