use crate::filter::utf8_text;
use vstd::prelude::*;
use vstd::utf8::{decode_utf8, valid_utf8};

verus! {

/// The pieces of `s` between occurrences of `sep`, as `<[u8]>::split` gives
/// them: `n` separators make `n + 1` pieces, some of them possibly empty.
pub open spec fn split(s: Seq<u8>, sep: u8) -> Seq<Seq<u8>>
    decreases s.len(),
{
    if s.len() == 0 {
        seq![Seq::<u8>::empty()]
    } else {
        let rest = split(s.drop_last(), sep);
        if s.last() == sep {
            rest.push(Seq::<u8>::empty())
        } else {
            rest.update(rest.len() - 1, rest.last().push(s.last()))
        }
    }
}

pub proof fn lemma_split_nonempty(s: Seq<u8>, sep: u8)
    ensures
        split(s, sep).len() >= 1,
    decreases s.len(),
{
    if s.len() > 0 {
        lemma_split_nonempty(s.drop_last(), sep);
    }
}

pub fn split_bytes(s: &[u8], sep: u8) -> (r: Vec<Vec<u8>>)
    ensures
        r@.map_values(|w: Vec<u8>| w@) == split(s@, sep),
{
    let mut pieces: Vec<Vec<u8>> = Vec::new();
    let mut cur: Vec<u8> = Vec::new();
    let mut i: usize = 0;
    assert(s@.take(0) =~= Seq::<u8>::empty());
    assert(pieces@.map_values(|w: Vec<u8>| w@).push(cur@) =~= split(s@.take(0), sep));
    while i < s.len()
        invariant
            0 <= i <= s@.len(),
            pieces@.map_values(|w: Vec<u8>| w@).push(cur@) == split(s@.take(i as int), sep),
        decreases s@.len() - i,
    {
        let ghost t = s@.take(i as int + 1);
        assert(t.drop_last() =~= s@.take(i as int));
        proof {
            lemma_split_nonempty(s@.take(i as int), sep);
        }
        if s[i] == sep {
            let done = cur;
            pieces.push(done);
            cur = Vec::new();
            assert(pieces@.map_values(|w: Vec<u8>| w@).push(cur@) =~= split(t, sep));
        } else {
            cur.push(s[i]);
            assert(pieces@.map_values(|w: Vec<u8>| w@).push(cur@) =~= split(t, sep));
        }
        i = i + 1;
    }
    assert(s@.take(i as int) =~= s@);
    pieces.push(cur);
    pieces
}

pub open spec fn views(vs: Seq<Vec<u8>>) -> Seq<Seq<u8>> {
    vs.map_values(|w: Vec<u8>| w@)
}

/// Whether `b` is an ASCII decimal digit.
pub open spec fn is_digit(b: u8) -> bool {
    0x30 <= b <= 0x39
}

pub open spec fn all_digits(s: Seq<u8>) -> bool {
    forall|i: int| 0 <= i < s.len() ==> is_digit(#[trigger] s[i])
}

/// The number that a string of decimal digits spells.
pub open spec fn digits_value(s: Seq<u8>) -> nat
    decreases s.len(),
{
    if s.len() == 0 {
        0
    } else {
        digits_value(s.drop_last()) * 10 + (s.last() - 0x30) as nat
    }
}

/// What `i32::from_str` accepts: an optional `+` or `-`, then one or more
/// ASCII digits, the value within the range of `i32`.
pub open spec fn parse_i32_spec(s: Seq<u8>) -> Option<int> {
    let neg = s.len() > 0 && s[0] == 0x2d;
    let signed = s.len() > 0 && (s[0] == 0x2d || s[0] == 0x2b);
    let digits = if signed {
        s.skip(1)
    } else {
        s
    };
    let v: int = if neg {
        -digits_value(digits)
    } else {
        digits_value(digits) as int
    };
    if digits.len() > 0 && all_digits(digits) && i32::MIN <= v <= i32::MAX {
        Some(v)
    } else {
        None
    }
}

proof fn lemma_digits_take(s: Seq<u8>, i: int)
    requires
        0 <= i < s.len(),
    ensures
        digits_value(s.take(i + 1)) == digits_value(s.take(i)) * 10 + (s[i] - 0x30) as nat,
{
    assert(s.take(i + 1).drop_last() =~= s.take(i));
}

/// Parses a decimal `i32` as `i32::from_str` does.
pub fn parse_i32(s: &[u8]) -> (r: Option<i32>)
    ensures
        r matches Some(v) ==> parse_i32_spec(s@) == Some(v as int),
        r is None ==> parse_i32_spec(s@) is None,
{
    let n = s.len();
    let neg = n > 0 && s[0] == 0x2du8;
    let signed = n > 0 && (s[0] == 0x2du8 || s[0] == 0x2bu8);
    let start: usize = if signed {
        1
    } else {
        0
    };
    let ghost digits = if signed {
        s@.skip(1)
    } else {
        s@
    };
    assert(digits =~= s@.skip(start as int));
    assert(neg ==> signed);
    if start >= n {
        return None;
    }
    let limit: u64 = 2147483648;
    let mut v: u64 = 0;
    let mut i: usize = start;
    assert(digits.take(0) =~= Seq::<u8>::empty());
    while i < n
        invariant
            start <= i <= n,
            n == s@.len(),
            digits == s@.skip(start as int),
            digits == (if s@.len() > 0 && (s@[0] == 0x2d || s@[0] == 0x2b) {
                s@.skip(1)
            } else {
                s@
            }),
            limit == 2147483648,
            v <= limit,
            v == digits_value(digits.take(i - start)),
            all_digits(digits.take(i - start)),
        decreases n - i,
    {
        let b = s[i];
        if b < 0x30u8 || b > 0x39u8 {
            assert(digits[i - start] == b);
            assert(!is_digit(digits[i - start]));
            assert(!all_digits(digits));
            assert(parse_i32_spec(s@) is None);
            return None;
        }
        proof {
            lemma_digits_take(digits, i - start);
            assert(digits[i - start] == b);
            assert forall|j: int| 0 <= j < i - start + 1 implies is_digit(
                #[trigger] digits.take(i - start + 1)[j],
            ) by {
                if j < i - start {
                    assert(digits.take(i - start + 1)[j] == digits.take(i - start)[j]);
                }
            }
        }
        assert(v * 10 <= 21474836480) by (nonlinear_arith)
            requires
                v <= 2147483648,
        ;
        let nv = v * 10 + (b - 0x30u8) as u64;
        if nv > limit {
            proof {
                lemma_digits_grow(digits, i - start + 1);
            }
            assert(parse_i32_spec(s@) is None);
            return None;
        }
        v = nv;
        i = i + 1;
    }
    assert(digits.take(i - start) =~= digits);
    if neg {
        Some((0 - v as i64) as i32)
    } else if v <= 2147483647 {
        Some(v as i32)
    } else {
        None
    }
}

proof fn lemma_digits_grow(s: Seq<u8>, i: int)
    requires
        0 <= i <= s.len(),
    ensures
        all_digits(s) ==> digits_value(s) >= digits_value(s.take(i)),
    decreases s.len() - i,
{
    if i < s.len() && all_digits(s) {
        lemma_digits_take(s, i);
        lemma_digits_grow(s, i + 1);
    }
    if i == s.len() {
        assert(s.take(i) =~= s);
    }
}

/// `s[i - 1] s[i]` is ` (`.
pub open spec fn is_open_at(s: Seq<u8>, i: int) -> bool {
    1 <= i < s.len() && s[i - 1] == 0x20 && s[i] == 0x28
}

/// `s[i] s[i + 1]` is `) `.
pub open spec fn is_close_at(s: Seq<u8>, i: int) -> bool {
    0 <= i && i + 1 < s.len() && s[i] == 0x29 && s[i + 1] == 0x20
}

/// The first `(` from position `i` on that follows a space, or -1.
pub open spec fn open_from(s: Seq<u8>, i: int) -> int
    decreases s.len() - i,
{
    if i >= s.len() {
        -1
    } else if is_open_at(s, i) {
        i
    } else {
        open_from(s, i + 1)
    }
}

/// The last `)` at position `i` or before that is followed by a space, or -1.
pub open spec fn close_from(s: Seq<u8>, i: int) -> int
    decreases i + 1,
{
    if i < 0 {
        -1
    } else if is_close_at(s, i) {
        i
    } else {
        close_from(s, i - 1)
    }
}

/// The fields of a `/proc/<pid>/stat` line: what precedes the first ` (`,
/// what lies between it and the last `) `, then what follows, split at each
/// space.
pub open spec fn stat_fields(s: Seq<u8>) -> Option<Seq<Seq<u8>>> {
    let o = open_from(s, 1);
    let c = close_from(s, s.len() - 2);
    if o >= 1 && c >= 0 && o + 1 <= c {
        Some(seq![s.take(o - 1), s.subrange(o + 1, c)] + split(s.skip(c + 2), 0x20))
    } else {
        None
    }
}

/// Field `index` of a stat line, read as an `i32`.
pub open spec fn stat_field(s: Seq<u8>, index: int) -> Option<int> {
    match stat_fields(s) {
        Some(fs) => if 0 <= index < fs.len() {
            parse_i32_spec(fs[index])
        } else {
            None
        },
        None => None,
    }
}

/// The bytes of a `/proc/<pid>/stat` file, read into fields.
pub struct StatParser {
    data: Vec<u8>,
}

impl StatParser {
    pub fn new(data: Vec<u8>) -> (r: StatParser)
        ensures
            r.data() == data@,
    {
        StatParser { data }
    }

    pub closed spec fn data(&self) -> Seq<u8> {
        self.data@
    }

    pub fn parse(&self) -> (r: Option<Vec<Vec<u8>>>)
        ensures
            r matches Some(fs) ==> stat_fields(self.data()) == Some(
                fs@.map_values(|w: Vec<u8>| w@),
            ),
            r is None ==> stat_fields(self.data()) is None,
    {
        let d = &self.data;
        let n = d.len();
        let mut open: usize = 1;
        while open < n && !(d[open - 1] == 0x20u8 && d[open] == 0x28u8)
            invariant
                1 <= open <= n || n == 0,
                n == d@.len(),
                open_from(d@, 1) == open_from(d@, open as int),
            decreases n - open,
        {
            open = open + 1;
        }
        if open >= n {
            return None;
        }
        let mut close: usize = n - 1;
        let mut found = false;
        while close > 0 && !found
            invariant
                0 <= close <= n - 1,
                n == d@.len(),
                !found ==> close_from(d@, n - 2) == close_from(d@, close as int - 1),
                found ==> close >= 1 && close_from(d@, n - 2) == close as int - 1,
            decreases close + (if found { 0int } else { 1int }),
        {
            if d[close - 1] == 0x29u8 && d[close] == 0x20u8 {
                found = true;
            } else {
                close = close - 1;
            }
        }
        if !found {
            return None;
        }
        let close = close - 1;
        if open + 1 > close {
            return None;
        }
        let mut fields: Vec<Vec<u8>> = Vec::new();
        fields.push(slice_vec(d, 0, open - 1));
        fields.push(slice_vec(d, open + 1, close));
        let rest = split_bytes(slice_vec(d, close + 2, n).as_slice(), 0x20u8);
        let ghost head = views(fields@);
        let mut i: usize = 0;
        while i < rest.len()
            invariant
                0 <= i <= rest@.len(),
                views(fields@) == head + views(rest@).take(i as int),
                views(rest@) == split(d@.skip(close + 2), 0x20),
            decreases rest@.len() - i,
        {
            let piece = slice_vec(rest[i].as_slice(), 0, rest[i].len());
            assert(piece@ =~= rest@[i as int]@);
            let ghost before = fields@;
            fields.push(piece);
            assert(views(fields@) =~= views(before).push(piece@));
            assert(views(rest@).take(i as int + 1) =~= views(rest@).take(i as int).push(
                views(rest@)[i as int],
            ));
            assert(views(fields@) =~= head + views(rest@).take(i as int + 1));
            i = i + 1;
        }
        proof {
            assert(views(rest@).take(i as int) =~= views(rest@));
            assert(d@.skip(close + 2) =~= d@.subrange(close as int + 2, n as int));
            assert(head =~= seq![d@.take(open - 1), d@.subrange(open + 1, close as int)]);
        }
        Some(fields)
    }
}

/// A copy of `s[start..end]`.
pub fn slice_vec(s: &[u8], start: usize, end: usize) -> (r: Vec<u8>)
    requires
        start <= end <= s@.len(),
    ensures
        r@ == s@.subrange(start as int, end as int),
{
    let mut r: Vec<u8> = Vec::new();
    let mut i: usize = start;
    while i < end
        invariant
            start <= i <= end <= s@.len(),
            r@ == s@.subrange(start as int, i as int),
        decreases end - i,
    {
        r.push(s[i]);
        assert(r@ =~= s@.subrange(start as int, i as int + 1));
        i = i + 1;
    }
    r
}

/// Field `index` of a stat line, read as an `i32`.
pub fn get_stat_field(stat: &[u8], index: usize) -> (r: Option<i32>)
    ensures
        r matches Some(v) ==> stat_field(stat@, index as int) == Some(v as int),
        r is None ==> stat_field(stat@, index as int) is None,
{
    let parser = StatParser::new(slice_vec(stat, 0, stat.len()));
    assert(stat@.subrange(0, stat@.len() as int) =~= stat@);
    match parser.parse() {
        Some(fields) => {
            if index < fields.len() {
                parse_i32(fields[index].as_slice())
            } else {
                None
            }
        },
        None => None,
    }
}

/// The NUL-separated arguments of `/proc/<pid>/cmdline`.
pub struct Args(pub Vec<u8>);

impl Args {
    /// The arguments, in order; a trailing NUL leaves an empty last one.
    pub fn parts(&self) -> (r: Vec<Vec<u8>>)
        ensures
            r@.map_values(|w: Vec<u8>| w@) == split(self.0@, 0),
    {
        split_bytes(self.0.as_slice(), 0)
    }
}

/// The first argument as text: its UTF-8 decoding, or `???` when it is not
/// valid UTF-8.
pub open spec fn argv0_text(cmdline: Seq<u8>) -> Seq<char> {
    let first = split(cmdline, 0)[0];
    if valid_utf8(first) {
        decode_utf8(first)
    } else {
        "???"@
    }
}

/// A process, by its pid. What the kernel reports of it is read elsewhere and
/// handed to the methods below as bytes.
pub struct Process {
    pid: i32,
}

impl Process {
    pub fn new(pid: i32) -> (r: Process)
        ensures
            r.pid() == pid,
    {
        Process { pid }
    }

    pub closed spec fn pid_spec(&self) -> i32 {
        self.pid
    }

    #[verifier::when_used_as_spec(pid_spec)]
    pub fn pid(&self) -> (r: i32)
        ensures
            r == self.pid_spec(),
    {
        self.pid
    }

    /// The first argument of a command line.
    pub fn argv0(args: &Args) -> (r: String)
        ensures
            r@ == argv0_text(args.0@),
    {
        let parts = args.parts();
        proof {
            lemma_split_nonempty(args.0@, 0);
        }
        assert(parts@[0]@ == split(args.0@, 0)[0]);
        match utf8_text(parts[0].as_slice()) {
            Some(s) => s,
            None => {
                proof {
                    reveal_strlit("???");
                }
                "???".to_owned()
            },
        }
    }

    /// The parent pid, field 3 of a stat line.
    pub fn parent(stat: &[u8]) -> (r: Option<i32>)
        ensures
            r matches Some(v) ==> stat_field(stat@, 3) == Some(v as int),
            r is None ==> stat_field(stat@, 3) is None,
    {
        get_stat_field(stat, 3)
    }

    /// The process group, field 4 of a stat line.
    pub fn process_group(stat: &[u8]) -> (r: Option<i32>)
        ensures
            r matches Some(v) ==> stat_field(stat@, 4) == Some(v as int),
            r is None ==> stat_field(stat@, 4) is None,
    {
        get_stat_field(stat, 4)
    }

    /// The foreground process group of the controlling tty, field 7 of a
    /// stat line.
    pub fn tty_process_group(stat: &[u8]) -> (r: Option<i32>)
        ensures
            r matches Some(v) ==> stat_field(stat@, 7) == Some(v as int),
            r is None ==> stat_field(stat@, 7) is None,
    {
        get_stat_field(stat, 7)
    }

    /// The pids, in order, of the processes whose stat line puts them in
    /// process group `pgrp`; a line that cannot be read leaves its process out.
    pub fn list_process_group(stats: &Vec<(i32, Vec<u8>)>, pgrp: i32) -> (r: Vec<i32>)
        ensures
            r@ == group_members(stats@, pgrp as int),
    {
        let mut result: Vec<i32> = Vec::new();
        let mut i: usize = 0;
        while i < stats.len()
            invariant
                0 <= i <= stats@.len(),
                result@ == group_members(stats@.take(i as int), pgrp as int),
            decreases stats@.len() - i,
        {
            let ghost t = stats@.take(i as int + 1);
            assert(t.drop_last() =~= stats@.take(i as int));
            let g = Process::process_group(stats[i].1.as_slice());
            if let Some(p) = g {
                if p == pgrp {
                    result.push(stats[i].0);
                }
            }
            i = i + 1;
        }
        assert(stats@.take(i as int) =~= stats@);
        result
    }
}

/// The pids of the entries whose stat line gives process group `pgrp`.
pub open spec fn group_members(stats: Seq<(i32, Vec<u8>)>, pgrp: int) -> Seq<i32>
    decreases stats.len(),
{
    if stats.len() == 0 {
        seq![]
    } else {
        let rest = group_members(stats.drop_last(), pgrp);
        if stat_field(stats.last().1@, 4) == Some(pgrp) {
            rest.push(stats.last().0)
        } else {
            rest
        }
    }
}

} // verus!
