//! The ports dev servers usually listen on, and reading which process holds
//! a port from the system's socket tables.

use vstd::prelude::*;
use vstd::string::*;

use crate::table::names_of_strings;
use crate::text::{
    chars_of, contains_chars, contains_text, decimal_text, ends_with, parse_decimal, parsed_decimal, push_char,
    push_decimal, split_lines, split_pieces, split_text, split_words, str_ends_with, text_lines, whitespace_words,
};

verus! {

/// A port found open, and the process holding it when that is known.
#[derive(Debug, Clone)]
pub struct PortInfo {
    pub port: u16,
    pub pid: Option<u32>,
    pub process_name: Option<String>,
}

/// 3000–3010, 4000–4010, 5000–5010, 8000–8010, then 8080 and 9000.
pub open spec fn dev_ports() -> Seq<u16> {
    Seq::new(
        46,
        |i: int|
            if i < 11 {
                (3000 + i) as u16
            } else if i < 22 {
                (4000 + i - 11) as u16
            } else if i < 33 {
                (5000 + i - 22) as u16
            } else if i < 44 {
                (8000 + i - 33) as u16
            } else if i == 44 {
                8080u16
            } else {
                9000u16
            },
    )
}

fn push_range(out: &mut Vec<u16>, lo: u16, hi: u16)
    requires
        lo <= hi,
    ensures
        final(out)@ == old(out)@ + Seq::new((hi - lo + 1) as nat, |i: int| (lo + i) as u16),
{
    let mut p = lo;
    let ghost start = old(out)@;
    while p <= hi
        invariant
            lo <= p <= hi,
            start == old(out)@,
            out@ == start + Seq::new((p - lo) as nat, |i: int| (lo + i) as u16),
        decreases hi + 1 - p,
    {
        out.push(p);
        proof {
            assert(out@ =~= start + Seq::new((p + 1 - lo) as nat, |i: int| (lo + i) as u16));
        }
        if p == hi {
            proof {
                assert(out@ =~= start + Seq::new((hi - lo + 1) as nat, |i: int| (lo + i) as u16));
            }
            return;
        }
        p = p + 1;
    }
}

/// The ports a dev server usually listens on, in the order they are checked.
pub fn dev_server_ports() -> (r: Vec<u16>)
    ensures
        r@ == dev_ports(),
{
    let mut out: Vec<u16> = Vec::new();
    push_range(&mut out, 3000, 3010);
    push_range(&mut out, 4000, 4010);
    push_range(&mut out, 5000, 5010);
    push_range(&mut out, 8000, 8010);
    out.push(8080);
    out.push(9000);
    assert(out@ =~= dev_ports());
    out
}

/// The character of hexadecimal digit `d`, in upper case.
pub open spec fn hex_digit(d: nat) -> char {
    if d < 10 {
        ((d + 48) as u8) as char
    } else {
        ((d + 55) as u8) as char
    }
}

/// `p` as four upper-case hexadecimal digits, as `format!("{:04X}", p)` writes it.
pub open spec fn hex4(p: u16) -> Seq<char> {
    seq![
        hex_digit(p as nat / 4096),
        hex_digit(p as nat / 256 % 16),
        hex_digit(p as nat / 16 % 16),
        hex_digit(p as nat % 16),
    ]
}

fn hex_char(d: u16) -> (r: char)
    requires
        d < 16,
    ensures
        r == hex_digit(d as nat),
{
    if d < 10 {
        ((d as u8) + 48) as char
    } else {
        ((d as u8) + 55) as char
    }
}

fn hex4_chars(p: u16) -> (r: Vec<char>)
    ensures
        r@ == hex4(p),
{
    let mut v: Vec<char> = Vec::new();
    v.push(hex_char(p / 4096));
    v.push(hex_char(p / 256 % 16));
    v.push(hex_char(p / 16 % 16));
    v.push(hex_char(p % 16));
    assert(v@ =~= hex4(p));
    v
}

/// A number as `str::parse::<u32>` reads it, zero when it reads none.
pub open spec fn u32_or_zero(s: Seq<char>) -> nat {
    match parsed_decimal(s, u32::MAX as nat) {
        Some(v) => v,
        None => 0,
    }
}

fn parse_u32_or_zero(s: &str) -> (r: u32)
    ensures
        r as nat == u32_or_zero(s@),
{
    match parse_decimal(s, 4294967295u64) {
        Some(v) => v as u32,
        None => 0,
    }
}

/// The socket inode a line of `/proc/net/tcp` gives for the local port
/// written `hex`: the line has at least ten fields, the part after the colon
/// of the second is `hex`, and the tenth is a number.
pub open spec fn proc_net_inode(line: Seq<char>, hex: Seq<char>) -> Option<nat> {
    let parts = whitespace_words(line);
    if parts.len() < 10 {
        None
    } else {
        let cp = split_pieces(parts[1], ":"@);
        if cp.len() >= 2 && cp[1] == hex {
            parsed_decimal(parts[9], u64::MAX as nat)
        } else {
            None
        }
    }
}

/// The first inode that lines `i` and on of `lines` give for port `hex`.
pub open spec fn inode_from(lines: Seq<Seq<char>>, hex: Seq<char>, i: int) -> Option<nat>
    decreases lines.len() - i,
{
    if i < 0 || i >= lines.len() {
        None
    } else {
        match proc_net_inode(lines[i], hex) {
            Some(v) => Some(v),
            None => inode_from(lines, hex, i + 1),
        }
    }
}

fn line_inode(line: &str, hex: &Vec<char>) -> (r: Option<u64>)
    ensures
        match r {
            Some(v) => proc_net_inode(line@, hex@) == Some(v as nat),
            None => proc_net_inode(line@, hex@).is_none(),
        },
{
    let parts = split_words(line);
    if parts.len() < 10 {
        return None;
    }
    proof {
        assert(parts@[1]@ == whitespace_words(line@)[1]);
        assert(parts@[9]@ == whitespace_words(line@)[9]);
    }
    proof {
        reveal_strlit(":");
    }
    let cp = split_text(parts[1].as_str(), ":");
    if cp.len() < 2 {
        return None;
    }
    let piece = chars_of(cp[1].as_str());
    assert(piece@ == split_pieces(whitespace_words(line@)[1], ":"@)[1]);
    if piece.len() != hex.len() {
        return None;
    }
    let mut k: usize = 0;
    while k < hex.len()
        invariant
            piece@.len() == hex@.len(),
            whitespace_words(line@).len() >= 10,
            split_pieces(whitespace_words(line@)[1], ":"@).len() >= 2,
            piece@ == split_pieces(whitespace_words(line@)[1], ":"@)[1],
            k <= hex@.len(),
            forall|j: int| 0 <= j < k ==> piece@[j] == hex@[j],
        decreases hex@.len() - k,
    {
        if piece[k] != hex[k] {
            assert(piece@[k as int] != hex@[k as int]);
            return None;
        }
        k = k + 1;
    }
    assert(piece@ =~= hex@);
    parse_decimal(parts[9].as_str(), 18446744073709551615u64)
}

/// The inode of the socket listed for local port `port` in the text of
/// `/proc/net/tcp` (its first line being a header).
pub fn socket_inode(tcp_table: &str, port: u16) -> (r: Option<u64>)
    ensures
        match r {
            Some(v) => inode_from(text_lines(tcp_table@), hex4(port), 1) == Some(v as nat),
            None => inode_from(text_lines(tcp_table@), hex4(port), 1).is_none(),
        },
{
    let lines = split_lines(tcp_table);
    let hex = hex4_chars(port);
    let ghost ls = text_lines(tcp_table@);
    let mut i: usize = 1;
    while i < lines.len()
        invariant
            ls == text_lines(tcp_table@),
            hex@ == hex4(port),
            lines@.len() == ls.len(),
            forall|k: int| 0 <= k < lines@.len() ==> (#[trigger] lines@[k])@ == ls[k],
            1 <= i,
            inode_from(ls, hex@, 1) == inode_from(ls, hex@, i as int),
        decreases lines@.len() - i,
    {
        match line_inode(lines[i].as_str(), &hex) {
            Some(v) => {
                return Some(v);
            },
            None => {},
        }
        i = i + 1;
    }
    None
}

/// How a `/proc/<pid>/fd` link to the socket with inode `inode` reads.
pub open spec fn socket_link(inode: u64) -> Seq<char> {
    "socket:["@ + decimal_text(inode as nat) + "]"@
}

/// Whether the target of a file-descriptor link names socket `inode`.
pub fn links_to_socket(link: &str, inode: u64) -> (r: bool)
    ensures
        r == contains_text(link@, socket_link(inode)),
{
    let mut pattern = String::from_str("socket:[");
    push_decimal(&mut pattern, inode);
    push_char(&mut pattern, ']');
    proof {
        reveal_strlit("]");
        assert(pattern@ =~= socket_link(inode));
    }
    contains_chars(&chars_of(link), &chars_of(pattern.as_str()))
}

fn port_suffix(port: u16) -> (r: Vec<char>)
    ensures
        r@ == seq![':'] + decimal_text(port as nat),
{
    let mut s = String::from_str(":");
    push_decimal(&mut s, port as u64);
    proof {
        reveal_strlit(":");
        assert(s@ =~= seq![':'] + decimal_text(port as nat));
    }
    chars_of(s.as_str())
}

/// The process a line of `lsof -iTCP -sTCP:LISTEN -n -P` output gives for a
/// port: the line has at least nine fields and the ninth ends with
/// `suffix`; the pid is the second field (zero when it is no number), the
/// name the first.
pub open spec fn lsof_owner_line(line: Seq<char>, suffix: Seq<char>) -> Option<(nat, Seq<char>)> {
    let parts = whitespace_words(line);
    if parts.len() >= 9 && ends_with(parts[8], suffix) {
        Some((u32_or_zero(parts[1]), parts[0]))
    } else {
        None
    }
}

pub open spec fn lsof_owner_from(lines: Seq<Seq<char>>, suffix: Seq<char>, i: int) -> Option<(nat, Seq<char>)>
    decreases lines.len() - i,
{
    if i < 0 || i >= lines.len() {
        None
    } else {
        match lsof_owner_line(lines[i], suffix) {
            Some(o) => Some(o),
            None => lsof_owner_from(lines, suffix, i + 1),
        }
    }
}

/// The pid and command name that `lsof` output (its first line being a
/// header) lists as listening on `port`.
pub fn lsof_owner(output: &str, port: u16) -> (r: Option<(u32, String)>)
    ensures
        match r {
            Some((pid, name)) => lsof_owner_from(text_lines(output@), seq![':'] + decimal_text(port as nat), 1)
                == Some((pid as nat, name@)),
            None => lsof_owner_from(text_lines(output@), seq![':'] + decimal_text(port as nat), 1).is_none(),
        },
{
    let lines = split_lines(output);
    let suffix = port_suffix(port);
    let ghost ls = text_lines(output@);
    let mut i: usize = 1;
    while i < lines.len()
        invariant
            ls == text_lines(output@),
            suffix@ == seq![':'] + decimal_text(port as nat),
            lines@.len() == ls.len(),
            forall|k: int| 0 <= k < lines@.len() ==> (#[trigger] lines@[k])@ == ls[k],
            1 <= i,
            lsof_owner_from(ls, suffix@, 1) == lsof_owner_from(ls, suffix@, i as int),
        decreases lines@.len() - i,
    {
        let parts = split_words(lines[i].as_str());
        if parts.len() >= 9 {
            proof {
                assert(parts@[8]@ == whitespace_words(ls[i as int])[8]);
                assert(parts@[1]@ == whitespace_words(ls[i as int])[1]);
                assert(parts@[0]@ == whitespace_words(ls[i as int])[0]);
            }
            if str_ends_with(parts[8].as_str(), &suffix) {
                let pid = parse_u32_or_zero(parts[1].as_str());
                return Some((pid, parts[0].clone()));
            }
        }
        i = i + 1;
    }
    None
}

/// The pid a line of `netstat -ano` output gives for a port: the line holds
/// `LISTENING`, has at least five fields, and the second ends with
/// `suffix`; the pid is the fifth field (zero when it is no number).
pub open spec fn netstat_owner_line(line: Seq<char>, suffix: Seq<char>) -> Option<nat> {
    let parts = whitespace_words(line);
    if contains_text(line, "LISTENING"@) && parts.len() >= 5 && ends_with(parts[1], suffix) {
        Some(u32_or_zero(parts[4]))
    } else {
        None
    }
}

pub open spec fn netstat_owner_from(lines: Seq<Seq<char>>, suffix: Seq<char>, i: int) -> Option<nat>
    decreases lines.len() - i,
{
    if i < 0 || i >= lines.len() {
        None
    } else {
        match netstat_owner_line(lines[i], suffix) {
            Some(o) => Some(o),
            None => netstat_owner_from(lines, suffix, i + 1),
        }
    }
}

/// The pid that `netstat -ano` output lists as listening on `port`.
pub fn netstat_owner(output: &str, port: u16) -> (r: Option<u32>)
    ensures
        match r {
            Some(pid) => netstat_owner_from(text_lines(output@), seq![':'] + decimal_text(port as nat), 0)
                == Some(pid as nat),
            None => netstat_owner_from(text_lines(output@), seq![':'] + decimal_text(port as nat), 0).is_none(),
        },
{
    let lines = split_lines(output);
    let suffix = port_suffix(port);
    let listening = chars_of("LISTENING");
    let ghost ls = text_lines(output@);
    let mut i: usize = 0;
    while i < lines.len()
        invariant
            ls == text_lines(output@),
            suffix@ == seq![':'] + decimal_text(port as nat),
            listening@ == "LISTENING"@,
            lines@.len() == ls.len(),
            forall|k: int| 0 <= k < lines@.len() ==> (#[trigger] lines@[k])@ == ls[k],
            netstat_owner_from(ls, suffix@, 0) == netstat_owner_from(ls, suffix@, i as int),
        decreases lines@.len() - i,
    {
        if contains_chars(&chars_of(lines[i].as_str()), &listening) {
            let parts = split_words(lines[i].as_str());
            if parts.len() >= 5 {
                proof {
                    assert(parts@[1]@ == whitespace_words(ls[i as int])[1]);
                    assert(parts@[4]@ == whitespace_words(ls[i as int])[4]);
                }
                if str_ends_with(parts[1].as_str(), &suffix) {
                    return Some(parse_u32_or_zero(parts[4].as_str()));
                }
            }
        }
        i = i + 1;
    }
    None
}

} // verus!
