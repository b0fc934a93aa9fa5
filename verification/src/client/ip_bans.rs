//! Address patterns of banned peers: four dot-separated parts, each a
//! decimal octet or `*` for any, such as `10.0.*.5`.
use vstd::prelude::*;

use crate::protocol::wire::chars_of;

verus! {

/// A banned address pattern: each octet, or `None` for any.
#[derive(Debug, Clone, Copy)]
pub struct IpPattern {
    pub octets: (Option<u8>, Option<u8>, Option<u8>, Option<u8>),
}

/// The part of a pattern being read.
#[derive(Debug, Clone, Copy, PartialEq, Eq, Structural)]
pub enum Part {
    Empty,
    Any,
    Number(u8),
    Invalid,
}

/// Reading one more character of a pattern: the parts finished so far and
/// the part being read.
pub open spec fn read_char(st: (Seq<Option<u8>>, Part), c: char) -> (Seq<Option<u8>>, Part) {
    let (done, cur) = st;
    if cur is Invalid {
        st
    } else if c == '.' {
        match cur {
            Part::Any => (done.push(None), Part::Empty),
            Part::Number(v) => (done.push(Some(v)), Part::Empty),
            _ => (done, Part::Invalid),
        }
    } else if c == '*' {
        if cur is Empty {
            (done, Part::Any)
        } else {
            (done, Part::Invalid)
        }
    } else if '0' <= c && c <= '9' {
        let d = (c as u32 - '0' as u32) as int;
        match cur {
            Part::Empty => (done, Part::Number(d as u8)),
            Part::Number(v) => if v * 10 + d <= 255 {
                (done, Part::Number((v * 10 + d) as u8))
            } else {
                (done, Part::Invalid)
            },
            _ => (done, Part::Invalid),
        }
    } else {
        (done, Part::Invalid)
    }
}

/// Reading the characters of a pattern in order.
pub open spec fn read_chars(p: Seq<char>) -> (Seq<Option<u8>>, Part)
    decreases p.len(),
{
    if p.len() == 0 {
        (Seq::empty(), Part::Empty)
    } else {
        read_char(read_chars(p.drop_last()), p.last())
    }
}

/// The octets a pattern names, when it is well formed.
pub open spec fn pattern_octets(p: Seq<char>) -> Option<Seq<Option<u8>>> {
    let (done, cur) = read_chars(p);
    let all: Option<Seq<Option<u8>>> = match cur {
        Part::Any => Some(done.push(None)),
        Part::Number(v) => Some(done.push(Some(v))),
        _ => None,
    };
    match all {
        Some(a) => if a.len() == 4 {
            Some(a)
        } else {
            None
        },
        None => None,
    }
}

pub open spec fn pattern_seq(p: IpPattern) -> Seq<Option<u8>> {
    seq![p.octets.0, p.octets.1, p.octets.2, p.octets.3]
}

/// The octets of an address, most significant first.
pub open spec fn octets_of(ip: u32) -> Seq<u8> {
    seq![(ip / 0x100_0000) as u8, (ip / 0x1_0000 % 0x100) as u8, (ip / 0x100 % 0x100) as u8, (ip % 0x100) as u8]
}

pub open spec fn octet_matches(o: Option<u8>, b: u8) -> bool {
    match o {
        Some(v) => v == b,
        None => true,
    }
}

/// The pattern covers the address.
pub open spec fn covers(p: IpPattern, ip: u32) -> bool {
    let o = octets_of(ip);
    octet_matches(p.octets.0, o[0]) && octet_matches(p.octets.1, o[1]) && octet_matches(p.octets.2, o[2])
        && octet_matches(p.octets.3, o[3])
}

/// The pattern a text names, if it is well formed.
pub fn parse_ip_pattern(text: &str) -> (p: Option<IpPattern>)
    ensures
        match pattern_octets(text@) {
            Some(o) => p matches Some(q) && pattern_seq(q) == o,
            None => p is None,
        },
{
    let chars = chars_of(text);
    let mut done: Vec<Option<u8>> = Vec::new();
    let mut cur = Part::Empty;
    let mut i: usize = 0;
    while i < chars.len()
        invariant
            i <= chars@.len(),
            chars@ == text@,
            (done@, cur) == read_chars(chars@.take(i as int)),
        decreases chars@.len() - i,
    {
        proof {
            assert(chars@.take(i + 1).drop_last() =~= chars@.take(i as int));
        }
        let c = chars[i];
        match cur {
            Part::Invalid => {},
            _ => {
                if c == '.' {
                    match cur {
                        Part::Any => {
                            done.push(None);
                            cur = Part::Empty;
                        },
                        Part::Number(v) => {
                            done.push(Some(v));
                            cur = Part::Empty;
                        },
                        _ => {
                            cur = Part::Invalid;
                        },
                    }
                } else if c == '*' {
                    cur = match cur {
                        Part::Empty => Part::Any,
                        _ => Part::Invalid,
                    };
                } else if '0' <= c && c <= '9' {
                    let d = (c as u32 - '0' as u32) as u16;
                    cur = match cur {
                        Part::Empty => Part::Number(d as u8),
                        Part::Number(v) => if (v as u16) * 10 + d <= 255 {
                            Part::Number(((v as u16) * 10 + d) as u8)
                        } else {
                            Part::Invalid
                        },
                        _ => Part::Invalid,
                    };
                } else {
                    cur = Part::Invalid;
                }
            },
        }
        i = i + 1;
    }
    proof {
        assert(chars@.take(chars@.len() as int) =~= chars@);
    }
    match cur {
        Part::Any => done.push(None),
        Part::Number(v) => done.push(Some(v)),
        _ => {
            return None;
        },
    }
    if done.len() != 4 {
        return None;
    }
    let p = IpPattern { octets: (done[0], done[1], done[2], done[3]) };
    proof {
        assert(pattern_seq(p) =~= done@);
    }
    Some(p)
}

/// The octets of an address.
fn split_octets(ip: u32) -> (o: (u8, u8, u8, u8))
    ensures
        seq![o.0, o.1, o.2, o.3] == octets_of(ip),
{
    ((ip / 0x100_0000) as u8, (ip / 0x1_0000 % 0x100) as u8, (ip / 0x100 % 0x100) as u8, (ip % 0x100) as u8)
}

fn octet_ok(o: Option<u8>, b: u8) -> (r: bool)
    ensures
        r == octet_matches(o, b),
{
    match o {
        Some(v) => v == b,
        None => true,
    }
}

/// The patterns of the texts that are well formed, in order.
pub open spec fn parsed_patterns(texts: Seq<Seq<char>>) -> Seq<Seq<Option<u8>>>
    decreases texts.len(),
{
    if texts.len() == 0 {
        Seq::empty()
    } else {
        parsed_patterns(texts.drop_last()) + match pattern_octets(texts.last()) {
            Some(o) => seq![o],
            None => Seq::empty(),
        }
    }
}

/// The banned address patterns.
pub struct IpBans {
    patterns: Vec<IpPattern>,
}

impl IpBans {
    pub closed spec fn patterns(&self) -> Seq<IpPattern> {
        self.patterns@
    }

    pub fn new() -> (b: Self)
        ensures
            b.patterns().len() == 0,
    {
        IpBans { patterns: Vec::new() }
    }

    /// The bans become the well-formed patterns among `texts`; the others
    /// are ignored.
    pub fn set(&mut self, texts: Vec<String>)
        ensures
            final(self).patterns().map_values(|p: IpPattern| pattern_seq(p)) == parsed_patterns(
                texts@.map_values(|t: String| t@),
            ),
    {
        let ghost names = texts@.map_values(|t: String| t@);
        let mut patterns: Vec<IpPattern> = Vec::new();
        let mut i: usize = 0;
        while i < texts.len()
            invariant
                i <= texts@.len(),
                names == texts@.map_values(|t: String| t@),
                patterns@.map_values(|p: IpPattern| pattern_seq(p)) == parsed_patterns(names.take(i as int)),
            decreases texts@.len() - i,
        {
            proof {
                assert(names.take(i + 1).drop_last() =~= names.take(i as int));
                assert(names.take(i + 1).last() == texts@[i as int]@);
            }
            let ghost before = patterns@;
            match parse_ip_pattern(texts[i].as_str()) {
                Some(p) => {
                    patterns.push(p);
                    proof {
                        assert(patterns@.map_values(|p: IpPattern| pattern_seq(p)) =~= before.map_values(
                            |p: IpPattern| pattern_seq(p),
                        ).push(pattern_seq(p)));
                    }
                },
                None => {},
            }
            i = i + 1;
        }
        proof {
            assert(names.take(texts@.len() as int) =~= names);
        }
        self.patterns = patterns;
    }

    /// Some ban covers the address.
    pub fn is_banned(&self, ip: u32) -> (b: bool)
        ensures
            b == exists|i: int| 0 <= i < self.patterns().len() && covers(#[trigger] self.patterns()[i], ip),
    {
        let (a, b, c, d) = split_octets(ip);
        let mut i: usize = 0;
        while i < self.patterns.len()
            invariant
                i <= self.patterns@.len(),
                seq![a, b, c, d] == octets_of(ip),
                forall|j: int| 0 <= j < i ==> !covers(#[trigger] self.patterns@[j], ip),
            decreases self.patterns@.len() - i,
        {
            let p = self.patterns[i];
            proof {
                assert(seq![a, b, c, d][0] == a && seq![a, b, c, d][1] == b && seq![a, b, c, d][2] == c
                    && seq![a, b, c, d][3] == d);
                assert(octets_of(ip)[0] == a && octets_of(ip)[1] == b && octets_of(ip)[2] == c && octets_of(ip)[3] == d);
            }
            if octet_ok(p.octets.0, a) && octet_ok(p.octets.1, b) && octet_ok(p.octets.2, c) && octet_ok(
                p.octets.3,
                d,
            ) {
                proof {
                    assert(covers(self.patterns()[i as int], ip));
                }
                return true;
            }
            i = i + 1;
        }
        false
    }
}

} // verus!
