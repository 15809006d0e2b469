//! Hardware summaries from probe output: CPU facts, memory totals, storage.

use vstd::prelude::*;
use crate::catalog::line_value;
use crate::text::{join_comma, join_comma_strings};
use crate::text::{
    char_views, chars_of, find_char, index_of, lemma_index_of, lines_of, occurs_at,
    occurs_at_exec, split_lines, split_words, string_of, trim, trimmed, words,
};

verus! {

/// The value of the last line that starts with `prefix`.
pub open spec fn prefixed_value(lines: Seq<Seq<char>>, prefix: Seq<char>) -> Option<Seq<char>>
    decreases lines.len(),
{
    if lines.len() == 0 {
        None
    } else if occurs_at(lines.last(), prefix, 0) {
        Some(line_value(lines.last()))
    } else {
        prefixed_value(lines.drop_last(), prefix)
    }
}

pub open spec fn or_unknown(o: Option<Seq<char>>) -> Seq<char> {
    match o {
        Some(v) => v,
        None => "Unknown"@,
    }
}

/// The value after the first colon of a line, trimmed.
fn value_after_colon(line: &Vec<char>) -> (r: String)
    requires
        exists|i: int| 0 <= i < line@.len() && line@[i] == ':',
    ensures
        r@ == line_value(line@),
{
    let p = find_char(line, ':', 0);
    proof {
        lemma_index_of(line@, ':', p as int);
    }
    let v = trimmed(line, p + 1, line.len());
    string_of(&v, 0, v.len())
}

/// CPU model, CPU count and threads per core from `lscpu` output; each is
/// the value of the last line with its label, or "Unknown".
pub fn parse_basic_cpu_info(lscpu_output: &str) -> (r: (String, String, String))
    ensures
        r.0@ == or_unknown(prefixed_value(lines_of(lscpu_output@), "Model name:"@)),
        r.1@ == or_unknown(prefixed_value(lines_of(lscpu_output@), "CPU(s):"@)),
        r.2@ == or_unknown(prefixed_value(lines_of(lscpu_output@), "Thread(s) per core:"@)),
{
    let lines = split_lines(&chars_of(lscpu_output));
    let p_model = chars_of("Model name:");
    let p_cpus = chars_of("CPU(s):");
    let p_threads = chars_of("Thread(s) per core:");
    let mut model = "Unknown".to_owned();
    let mut cores = "Unknown".to_owned();
    let mut threads = "Unknown".to_owned();
    let mut i: usize = 0;
    while i < lines.len()
        invariant
            i <= lines.len(),
            char_views(lines@) == lines_of(lscpu_output@),
            p_model@ == "Model name:"@,
            p_cpus@ == "CPU(s):"@,
            p_threads@ == "Thread(s) per core:"@,
            model@ == or_unknown(prefixed_value(char_views(lines@).take(i as int), "Model name:"@)),
            cores@ == or_unknown(prefixed_value(char_views(lines@).take(i as int), "CPU(s):"@)),
            threads@ == or_unknown(
                prefixed_value(char_views(lines@).take(i as int), "Thread(s) per core:"@),
            ),
        decreases lines.len() - i,
    {
        let line = &lines[i];
        let ghost ls = char_views(lines@).take(i + 1);
        assert(ls.drop_last() =~= char_views(lines@).take(i as int));
        assert(ls.last() == line@);
        proof {
            reveal_strlit("Model name:");
            reveal_strlit("CPU(s):");
            reveal_strlit("Thread(s) per core:");
        }
        if occurs_at_exec(line, &p_model, 0) {
            assert(line@[10] == line@.subrange(0, 11)[10]);
            model = value_after_colon(line);
        }
        if occurs_at_exec(line, &p_cpus, 0) {
            assert(line@[6] == line@.subrange(0, 7)[6]);
            cores = value_after_colon(line);
        }
        if occurs_at_exec(line, &p_threads, 0) {
            assert(line@[18] == line@.subrange(0, 19)[18]);
            threads = value_after_colon(line);
        }
        i += 1;
    }
    assert(char_views(lines@).take(lines.len() as int) =~= char_views(lines@));
    (model, cores, threads)
}

pub open spec fn is_digit(c: char) -> bool {
    '0' <= c && c <= '9'
}

pub open spec fn digit_value(c: char) -> nat {
    ((c as u32) - ('0' as u32)) as nat
}

/// The number that a run of decimal digits spells.
pub open spec fn digits_value(s: Seq<char>) -> nat
    decreases s.len(),
{
    if s.len() == 0 {
        0
    } else {
        digits_value(s.drop_last()) * 10 + digit_value(s.last())
    }
}

pub open spec fn all_digits(d: Seq<char>) -> bool {
    forall|i: int| 0 <= i < d.len() ==> is_digit(#[trigger] d[i])
}

/// What `u64::from_str` accepts: an optional `+`, then one or more ASCII
/// digits, with a value that fits in 64 bits.
pub open spec fn parse_u64(s: Seq<char>) -> Option<u64> {
    let d = if s.len() > 0 && s[0] == '+' {
        s.drop_first()
    } else {
        s
    };
    if d.len() > 0 && all_digits(d) && digits_value(d) <= u64::MAX {
        Some(digits_value(d) as u64)
    } else {
        None
    }
}

proof fn lemma_digits_grow(s: Seq<char>, i: int)
    requires
        0 <= i <= s.len(),
        all_digits(s),
    ensures
        digits_value(s.take(i)) <= digits_value(s),
    decreases s.len() - i,
{
    if i < s.len() {
        assert(s.drop_last().take(i) =~= s.take(i));
        lemma_digits_grow(s.drop_last(), i);
    } else {
        assert(s.take(i) =~= s);
    }
}

/// Parses a decimal `u64` as `str::parse` does.
pub fn parse_u64_exec(v: &Vec<char>) -> (r: Option<u64>)
    ensures
        r == parse_u64(v@),
{
    let start: usize = if v.len() > 0 && v[0] == '+' {
        1
    } else {
        0
    };
    let ghost d = if v@.len() > 0 && v@[0] == '+' {
        v@.drop_first()
    } else {
        v@
    };
    assert(d =~= v@.subrange(start as int, v@.len() as int));
    if start == v.len() {
        return None;
    }
    let mut acc: u64 = 0;
    let mut i: usize = start;
    while i < v.len()
        invariant
            start <= i <= v.len(),
            d == v@.subrange(start as int, v@.len() as int),
            d == (if v@.len() > 0 && v@[0] == '+' {
                v@.drop_first()
            } else {
                v@
            }),
            forall|k: int| start <= k < i ==> is_digit(#[trigger] v@[k]),
            acc == digits_value(d.take(i - start)),
        decreases v.len() - i,
    {
        let c = v[i];
        if !('0' <= c && c <= '9') {
            proof {
                assert(d[i - start] == c);
                assert(!is_digit(d[i - start]));
                assert(!all_digits(d));
            }
            return None;
        }
        let dv = (c as u32 - '0' as u32) as u64;
        assert(d.take(i + 1 - start).drop_last() =~= d.take(i - start));
        if acc > (u64::MAX - dv) / 10 {
            proof {
                assert(acc * 10 + dv > u64::MAX) by (nonlinear_arith)
                    requires
                        acc > (u64::MAX - dv) / 10,
                        dv <= 9,
                ;
                assert(d.take(i + 1 - start).last() == c);
                assert(digits_value(d.take(i + 1 - start)) == acc * 10 + dv);
                if all_digits(d) {
                    lemma_digits_grow(d, i + 1 - start);
                }
            }
            return None;
        }
        acc = acc * 10 + dv;
        i += 1;
    }
    assert(d.take(d.len() as int) =~= d);
    assert forall|k: int| 0 <= k < d.len() implies is_digit(#[trigger] d[k]) by {
        assert(d[k] == v@[start + k]);
    }
    assert(all_digits(d));
    Some(acc)
}

/// The number in the second word of a line.
pub open spec fn second_word_number(line: Seq<char>) -> Option<u64> {
    let ws = words(line);
    if ws.len() >= 2 {
        parse_u64(ws[1])
    } else {
        None
    }
}

/// Total and available memory seen so far; none once a labelled line fails
/// to parse.
pub open spec fn mem_scan(ls: Seq<Seq<char>>) -> Option<(u64, u64)>
    decreases ls.len(),
{
    if ls.len() == 0 {
        Some((0u64, 0u64))
    } else {
        match mem_scan(ls.drop_last()) {
            None => None,
            Some((t, f)) => {
                let l = ls.last();
                let t2 = if occurs_at(l, "MemTotal:"@, 0) {
                    second_word_number(l)
                } else {
                    Some(t)
                };
                match t2 {
                    None => None,
                    Some(t2) => if occurs_at(l, "MemAvailable:"@, 0) {
                        match second_word_number(l) {
                            None => None,
                            Some(f2) => Some((t2, f2)),
                        }
                    } else {
                        Some((t2, f))
                    },
                }
            },
        }
    }
}

/// Total and available KiB of a `/proc/meminfo` text, when both are known
/// and positive.
pub open spec fn meminfo_of(s: Seq<char>) -> Option<(u64, u64)> {
    match mem_scan(lines_of(s)) {
        Some((t, f)) => if t > 0 && f > 0 {
            Some((t, f))
        } else {
            None
        },
        None => None,
    }
}

fn second_word_number_exec(line: &Vec<char>) -> (r: Option<u64>)
    ensures
        r == second_word_number(line@),
{
    let ws = split_words(line);
    if ws.len() >= 2 {
        assert(ws@[1]@ == words(line@)[1]);
        parse_u64_exec(&ws[1])
    } else {
        None
    }
}

/// Reads total and available memory from a `/proc/meminfo` text.
pub fn parse_meminfo(content: &str) -> (r: Option<(u64, u64)>)
    ensures
        r == meminfo_of(content@),
{
    let lines = split_lines(&chars_of(content));
    let p_total = chars_of("MemTotal:");
    let p_avail = chars_of("MemAvailable:");
    let mut total: u64 = 0;
    let mut free: u64 = 0;
    let mut i: usize = 0;
    while i < lines.len()
        invariant
            i <= lines.len(),
            char_views(lines@) == lines_of(content@),
            p_total@ == "MemTotal:"@,
            p_avail@ == "MemAvailable:"@,
            mem_scan(char_views(lines@).take(i as int)) == Some((total, free)),
        decreases lines.len() - i,
    {
        let line = &lines[i];
        let ghost ls = char_views(lines@).take(i + 1);
        assert(ls.drop_last() =~= char_views(lines@).take(i as int));
        assert(ls.last() == line@);
        if occurs_at_exec(line, &p_total, 0) {
            match second_word_number_exec(line) {
                Some(t) => {
                    total = t;
                },
                None => {
                    proof {
                        lemma_mem_scan_stays_none(char_views(lines@), i + 1);
                    }
                    assert(char_views(lines@).take(lines.len() as int) =~= char_views(lines@));
                    return None;
                },
            }
        }
        if occurs_at_exec(line, &p_avail, 0) {
            match second_word_number_exec(line) {
                Some(f) => {
                    free = f;
                },
                None => {
                    proof {
                        lemma_mem_scan_stays_none(char_views(lines@), i + 1);
                    }
                    assert(char_views(lines@).take(lines.len() as int) =~= char_views(lines@));
                    return None;
                },
            }
        }
        i += 1;
    }
    assert(char_views(lines@).take(lines.len() as int) =~= char_views(lines@));
    if total > 0 && free > 0 {
        Some((total, free))
    } else {
        None
    }
}

proof fn lemma_mem_scan_stays_none(ls: Seq<Seq<char>>, j: int)
    requires
        0 <= j <= ls.len(),
        mem_scan(ls.take(j)) is None,
    ensures
        mem_scan(ls) is None,
    decreases ls.len() - j,
{
    if j == ls.len() {
        assert(ls.take(j) =~= ls);
    } else {
        assert(ls.drop_last().take(j) =~= ls.take(j));
        lemma_mem_scan_stays_none(ls.drop_last(), j);
    }
}

/// The device of a mount source under `/dev/`: the text after that prefix,
/// up to the first `[` or `/`.
pub open spec fn root_device_of(source: Seq<char>) -> Option<Seq<char>> {
    if occurs_at(source, "/dev/"@, 0) {
        let rest = source.subrange(5, source.len() as int);
        Some(rest.subrange(0, stop_index(rest) as int))
    } else {
        None
    }
}

/// Position of the first `[` or `/`, or the length.
pub open spec fn stop_index(s: Seq<char>) -> nat
    decreases s.len(),
{
    if s.len() == 0 {
        0
    } else if s[0] == '[' || s[0] == '/' {
        0
    } else {
        1 + stop_index(s.drop_first())
    }
}

proof fn lemma_stop_index(s: Seq<char>, p: int)
    requires
        0 <= p <= s.len(),
        forall|k: int| 0 <= k < p ==> s[k] != '[' && s[k] != '/',
        p == s.len() || s[p] == '[' || s[p] == '/',
    ensures
        stop_index(s) == p,
    decreases p,
{
    if p > 0 {
        lemma_stop_index(s.drop_first(), p - 1);
    }
}

/// The root device named by a mount source.
pub fn root_device_from_source(source: &str) -> (r: Option<String>)
    ensures
        crate::context::opt_view(r) == root_device_of(source@),
{
    let v = chars_of(source);
    let pre = chars_of("/dev/");
    proof {
        reveal_strlit("/dev/");
    }
    if !occurs_at_exec(&v, &pre, 0) {
        return None;
    }
    let mut p: usize = 5;
    while p < v.len() && v[p] != '[' && v[p] != '/'
        invariant
            5 <= p <= v.len(),
            forall|k: int| 5 <= k < p ==> v@[k] != '[' && v@[k] != '/',
        decreases v.len() - p,
    {
        p += 1;
    }
    proof {
        let rest = v@.subrange(5, v@.len() as int);
        lemma_stop_index(rest, p - 5);
        assert(rest.subrange(0, p - 5) =~= v@.subrange(5, p as int));
    }
    Some(string_of(&v, 5, p))
}

/// The used and available columns of the second line of `df` output, when
/// that line has at least four columns; "?" otherwise.
pub open spec fn df_usage_of(s: Seq<char>) -> (Seq<char>, Seq<char>) {
    let ls = lines_of(s);
    if ls.len() >= 2 && words(ls[1]).len() >= 4 {
        (words(ls[1])[1], words(ls[1])[2])
    } else {
        ("?"@, "?"@)
    }
}

/// Reads used and available space from `df` output.
pub fn df_usage(df_output: &str) -> (r: (String, String))
    ensures
        (r.0@, r.1@) == df_usage_of(df_output@),
{
    let lines = split_lines(&chars_of(df_output));
    if lines.len() >= 2 {
        let cols = split_words(&lines[1]);
        assert(char_views(lines@)[1] == lines@[1]@);
        if cols.len() >= 4 {
            assert(cols@[1]@ == words(lines@[1]@)[1]);
            assert(cols@[2]@ == words(lines@[1]@)[2]);
            assert(cols@[1]@.subrange(0, cols@[1]@.len() as int) =~= cols@[1]@);
            assert(cols@[2]@.subrange(0, cols@[2]@.len() as int) =~= cols@[2]@);
            return (string_of(&cols[1], 0, cols[1].len()), string_of(&cols[2], 0, cols[2].len()));
        }
    }
    ("?".to_owned(), "?".to_owned())
}

/// A partition of a block device.
#[derive(Clone, Debug)]
pub struct BlockPartition {
    pub name: String,
    pub size: String,
}

/// A block device with its partitions.
#[derive(Clone, Debug)]
pub struct BlockDevice {
    pub name: String,
    pub size: String,
    pub dev_type: String,
    pub children: Vec<BlockPartition>,
}

/// The size of the last partition with the given name.
pub open spec fn partition_size(parts: Seq<BlockPartition>, name: Seq<char>) -> Option<Seq<char>>
    decreases parts.len(),
{
    if parts.len() == 0 {
        None
    } else if parts.last().name@ == name {
        Some(parts.last().size@)
    } else {
        partition_size(parts.drop_last(), name)
    }
}

/// Over the disks, in order: the size of the root partition (the last one
/// found, else "Unknown"), and "name (size)" of each disk without it.
pub open spec fn storage_scan(devs: Seq<BlockDevice>, root: Seq<char>) -> (
    Seq<char>,
    Seq<Seq<char>>,
)
    decreases devs.len(),
{
    if devs.len() == 0 {
        ("Unknown"@, Seq::empty())
    } else {
        let (size, others) = storage_scan(devs.drop_last(), root);
        let d = devs.last();
        if d.dev_type@ == "disk"@ {
            match partition_size(d.children@, root) {
                Some(s) => (s, others),
                None => (size, others.push(d.name@ + " ("@ + d.size@ + ")"@)),
            }
        } else {
            (size, others)
        }
    }
}

fn partition_size_exec(parts: &Vec<BlockPartition>, name: &String) -> (r: Option<String>)
    ensures
        crate::context::opt_view(r) == partition_size(parts@, name@),
{
    let mut r: Option<String> = None;
    let mut i: usize = 0;
    assert(parts@.take(0) =~= Seq::<BlockPartition>::empty());
    while i < parts.len()
        invariant
            i <= parts.len(),
            crate::context::opt_view(r) == partition_size(parts@.take(i as int), name@),
        decreases parts.len() - i,
    {
        assert(parts@.take(i + 1).drop_last() =~= parts@.take(i as int));
        if parts[i].name == *name {
            r = Some(parts[i].size.clone());
        }
        i += 1;
    }
    assert(parts@.take(parts.len() as int) =~= parts@);
    r
}

/// The storage part of the summary: the root device with its size and
/// usage when both are known, and the other disks.
pub open spec fn storage_text(
    root: Seq<char>,
    devs: Seq<BlockDevice>,
    df: Seq<char>,
) -> (Seq<char>, Seq<char>) {
    let (size, others) = storage_scan(devs, root);
    let (used, avail) = df_usage_of(df);
    let main = if root != "Unknown"@ && size != "Unknown"@ {
        root + " ("@ + size + ") Used: "@ + used + " Free: "@ + avail
    } else {
        "Unknown"@
    };
    let other = if others.len() > 0 {
        "Other Devices: "@ + join_comma(others)
    } else {
        Seq::empty()
    };
    (main, other)
}

/// The one-paragraph hardware summary.
pub open spec fn hardware_summary_of(
    cpu_model: Seq<char>,
    cpu_cores: Seq<char>,
    ram: Seq<char>,
    root: Seq<char>,
    devs: Seq<BlockDevice>,
    df: Seq<char>,
) -> Seq<char> {
    let (main, other) = storage_text(root, devs, df);
    "CPU: "@ + cpu_model + " | Cores: "@ + cpu_cores + " | RAM: "@ + ram + " | Main Storage: "@
        + main + "\n"@ + other
}

/// Builds the hardware summary from the parsed probe results; `root_device`
/// is "Unknown" when the root mount could not be read.
pub fn hardware_summary(
    cpu_model: &str,
    cpu_cores: &str,
    ram: &str,
    root_device: &String,
    devices: &Vec<BlockDevice>,
    df_output: &str,
) -> (r: String)
    ensures
        r@ == hardware_summary_of(cpu_model@, cpu_cores@, ram@, root_device@, devices@, df_output@),
{
    let mut size = "Unknown".to_owned();
    let mut others: Vec<String> = Vec::new();
    let mut i: usize = 0;
    assert(devices@.take(0) =~= Seq::<BlockDevice>::empty());
    assert(crate::text::views(others@) =~= Seq::<Seq<char>>::empty());
    while i < devices.len()
        invariant
            i <= devices.len(),
            (size@, crate::text::views(others@)) == storage_scan(
                devices@.take(i as int),
                root_device@,
            ),
        decreases devices.len() - i,
    {
        assert(devices@.take(i + 1).drop_last() =~= devices@.take(i as int));
        let d = &devices[i];
        if crate::text::str_eq(d.dev_type.as_str(), "disk") {
            match partition_size_exec(&d.children, root_device) {
                Some(s) => {
                    size = s;
                },
                None => {
                    let mut e = d.name.clone();
                    e.append(" (");
                    e.append(d.size.as_str());
                    e.append(")");
                    let ghost prev = others@;
                    others.push(e);
                    proof {
                        assert(crate::text::views(others@) =~= crate::text::views(prev).push(e@));
                    }
                },
            }
        }
        i += 1;
    }
    assert(devices@.take(devices.len() as int) =~= devices@);
    let (used, avail) = df_usage(df_output);
    let main = if !crate::text::str_eq(root_device.as_str(), "Unknown") && !crate::text::str_eq(
        size.as_str(),
        "Unknown",
    ) {
        let mut m = root_device.clone();
        m.append(" (");
        m.append(size.as_str());
        m.append(") Used: ");
        m.append(used.as_str());
        m.append(" Free: ");
        m.append(avail.as_str());
        m
    } else {
        "Unknown".to_owned()
    };
    let mut other = String::new();
    if others.len() > 0 {
        other.append("Other Devices: ");
        other.append(join_comma_strings(&others).as_str());
    }
    let mut r = "CPU: ".to_owned();
    r.append(cpu_model);
    r.append(" | Cores: ");
    r.append(cpu_cores);
    r.append(" | RAM: ");
    r.append(ram);
    r.append(" | Main Storage: ");
    r.append(main.as_str());
    r.append("\n");
    r.append(other.as_str());
    assert(r@ =~= hardware_summary_of(
        cpu_model@,
        cpu_cores@,
        ram@,
        root_device@,
        devices@,
        df_output@,
    ));
    r
}

/// Bytes of a character in UTF-8.
pub open spec fn char_width(c: char) -> nat {
    let u = c as u32;
    if u < 0x80 {
        1
    } else if u < 0x800 {
        2
    } else if u < 0x10000 {
        3
    } else {
        4
    }
}

/// Byte position of character `i` in the UTF-8 encoding of `s`.
pub open spec fn byte_offset(s: Seq<char>, i: int) -> nat
    decreases i,
{
    if i <= 0 {
        0
    } else {
        byte_offset(s, i - 1) + char_width(s[i - 1])
    }
}

/// `str::get(a..b)`: the characters between byte positions `a` and `b` when
/// both fall on character boundaries and `a <= b`.
pub open spec fn byte_slice(s: Seq<char>, a: int, b: int) -> Option<Seq<char>> {
    if exists|i: int, j: int|
        0 <= i <= j <= s.len() && byte_offset(s, i) == a && byte_offset(s, j) == b {
        let (i, j) = choose|i: int, j: int|
            0 <= i <= j <= s.len() && byte_offset(s, i) == a && byte_offset(s, j) == b;
        Some(s.subrange(i, j))
    } else {
        None
    }
}

pub open spec fn slice_or_empty(s: Seq<char>, a: int, b: int) -> Seq<char> {
    match byte_slice(s, a, b) {
        Some(p) => p,
        None => Seq::empty(),
    }
}

proof fn lemma_offset_increasing(s: Seq<char>, i: int, j: int)
    requires
        0 <= i < j <= s.len(),
    ensures
        byte_offset(s, i) < byte_offset(s, j),
    decreases j,
{
    if i < j - 1 {
        lemma_offset_increasing(s, i, j - 1);
    }
}

fn width(c: char) -> (r: u128)
    ensures
        r == char_width(c),
{
    let u = c as u32;
    if u < 0x80 {
        1
    } else if u < 0x800 {
        2
    } else if u < 0x10000 {
        3
    } else {
        4
    }
}

/// The character index whose byte position is `a`, if any.
fn char_index_at(v: &Vec<char>, a: u128) -> (r: Option<usize>)
    ensures
        match r {
            Some(i) => i <= v.len() && byte_offset(v@, i as int) == a,
            None => forall|i: int| 0 <= i <= v.len() ==> byte_offset(v@, i) != a,
        },
{
    let mut k: usize = 0;
    let mut off: u128 = 0;
    while k < v.len() && off < a
        invariant
            k <= v.len(),
            off == byte_offset(v@, k as int),
            off <= 4 * k,
            forall|i: int| 0 <= i < k ==> byte_offset(v@, i) < a,
        decreases v.len() - k,
    {
        let w = width(v[k]);
        assert(w <= 4);
        assert(off + w <= 4 * (k + 1));
        off = off + w;
        k += 1;
    }
    if off == a {
        Some(k)
    } else {
        proof {
            assert forall|i: int| 0 <= i <= v.len() implies byte_offset(v@, i) != a by {
                if i > k {
                    lemma_offset_increasing(v@, k as int, i);
                } else if i < k {
                }
            }
        }
        None
    }
}

/// `str::get(a..b)` on a line, or empty when it is `None`.
fn slice_bytes(v: &Vec<char>, a: u128, b: u128) -> (r: Vec<char>)
    ensures
        r@ == slice_or_empty(v@, a as int, b as int),
{
    let ia = char_index_at(v, a);
    let ib = char_index_at(v, b);
    match (ia, ib) {
        (Some(i), Some(j)) => {
            if i <= j {
                proof {
                    let (x, y) = choose|x: int, y: int|
                        0 <= x <= y <= v@.len() && byte_offset(v@, x) == a && byte_offset(v@, y)
                            == b;
                    if x < i {
                        lemma_offset_increasing(v@, x, i as int);
                    } else if x > i {
                        lemma_offset_increasing(v@, i as int, x);
                    }
                    if y < j {
                        lemma_offset_increasing(v@, y, j as int);
                    } else if y > j {
                        lemma_offset_increasing(v@, j as int, y);
                    }
                }
                crate::text::slice_chars(v, i, j)
            } else {
                proof {
                    assert forall|x: int, y: int|
                        0 <= x <= y <= v@.len() && byte_offset(v@, x) == a implies byte_offset(
                        v@,
                        y,
                    ) != b by {
                        if x < i {
                            lemma_offset_increasing(v@, x, i as int);
                        } else if x > i {
                            lemma_offset_increasing(v@, i as int, x);
                        }
                        if y < j {
                            lemma_offset_increasing(v@, y, j as int);
                        } else if y > j {
                            lemma_offset_increasing(v@, j as int, y);
                        }
                    }
                }
                Vec::new()
            }
        },
        _ => Vec::new(),
    }
}

/// The byte length of a character sequence.
fn byte_len(v: &Vec<char>) -> (r: u128)
    ensures
        r == byte_offset(v@, v@.len() as int),
{
    let mut k: usize = 0;
    let mut off: u128 = 0;
    while k < v.len()
        invariant
            k <= v.len(),
            off == byte_offset(v@, k as int),
            off <= 4 * k,
        decreases v.len() - k,
    {
        let w = width(v[k]);
        assert(w <= 4);
        assert(off + w <= 4 * (k + 1));
        off = off + w;
        k += 1;
    }
    off
}

/// `n` first occurs in `h` at character `i`.
pub open spec fn first_at(h: Seq<char>, n: Seq<char>, i: int) -> bool {
    occurs_at(h, n, i) && forall|j: int| 0 <= j < i ==> !occurs_at(h, n, j)
}

/// `str::find(n).unwrap_or(0)`: the byte position of the first occurrence.
pub open spec fn column_of(h: Seq<char>, n: Seq<char>) -> int {
    if exists|i: int| first_at(h, n, i) {
        byte_offset(h, choose|i: int| first_at(h, n, i)) as int
    } else {
        0
    }
}

fn column_exec(h: &Vec<char>, n: &str) -> (r: u128)
    ensures
        r == column_of(h@, n@),
{
    let nv = chars_of(n);
    match crate::text::find_from(h, &nv, 0) {
        Some(i) => {
            proof {
                assert(first_at(h@, n@, i as int));
                let c = choose|c: int| first_at(h@, n@, c);
                if c < i {
                } else if c > i {
                }
                assert(c == i);
            }
            let pre = crate::text::slice_chars(h, 0, i);
            let r = byte_len(&pre);
            proof {
                lemma_prefix_offset(h@, i as int);
            }
            r
        },
        None => 0,
    }
}

proof fn lemma_prefix_offset(s: Seq<char>, i: int)
    requires
        0 <= i <= s.len(),
    ensures
        byte_offset(s.subrange(0, i), i) == byte_offset(s, i),
    decreases i,
{
    if i > 0 {
        lemma_prefix_offset(s, i - 1);
        lemma_offset_prefix_eq(s.subrange(0, i), s.subrange(0, i - 1), i - 1);
    }
}

proof fn lemma_offset_prefix_eq(s: Seq<char>, t: Seq<char>, k: int)
    requires
        0 <= k <= t.len() <= s.len(),
        forall|x: int| 0 <= x < t.len() ==> s[x] == t[x],
    ensures
        byte_offset(s, k) == byte_offset(t, k),
    decreases k,
{
    if k > 0 {
        lemma_offset_prefix_eq(s, t, k - 1);
    }
}

/// The entry of one lsblk line for the given column positions, when its
/// name, size and type cells are all non-empty.
pub open spec fn storage_entry(line: Seq<char>, cols: (int, int, int, int)) -> Option<Seq<char>> {
    let (np, sp, tp, mp) = cols;
    if trim(line).len() == 0 {
        None
    } else {
        let name = trim(slice_or_empty(line, np, sp));
        let size = trim(slice_or_empty(line, sp, tp));
        let typ = trim(slice_or_empty(line, tp, mp));
        let mount = trim(slice_or_empty(line, mp, byte_offset(line, line.len() as int) as int));
        if name.len() > 0 && size.len() > 0 && typ.len() > 0 {
            Some(name + ": "@ + size + " ["@ + typ + "] mounted at "@ + mount)
        } else {
            None
        }
    }
}

pub open spec fn storage_entries(lines: Seq<Seq<char>>, cols: (int, int, int, int)) -> Seq<
    Seq<char>,
>
    decreases lines.len(),
{
    if lines.len() == 0 {
        Seq::empty()
    } else {
        let e = storage_entries(lines.drop_last(), cols);
        match storage_entry(lines.last(), cols) {
            Some(x) => e.push(x),
            None => e,
        }
    }
}

/// Column positions (in bytes) of NAME, SIZE, TYPE and MOUNTPOINT in a header.
pub open spec fn storage_columns(header: Seq<char>) -> (int, int, int, int) {
    (
        column_of(header, "NAME"@),
        column_of(header, "SIZE"@),
        column_of(header, "TYPE"@),
        column_of(header, "MOUNTPOINT"@),
    )
}

/// The storage lines of `lsblk -o NAME,SIZE,TYPE,MOUNTPOINT` output: cells
/// are cut at the header's column positions.
pub open spec fn storage_summary_of(s: Seq<char>) -> Seq<Seq<char>> {
    let ls = lines_of(s);
    if ls.len() == 0 {
        Seq::empty()
    } else {
        storage_entries(ls.drop_first(), storage_columns(ls[0]))
    }
}

fn cell(line: &Vec<char>, a: u128, b: u128) -> (r: Vec<char>)
    ensures
        r@ == trim(slice_or_empty(line@, a as int, b as int)),
{
    let piece = slice_bytes(line, a, b);
    let t = trimmed(&piece, 0, piece.len());
    assert(piece@.subrange(0, piece@.len() as int) =~= piece@);
    t
}

/// Summarises the devices of an lsblk table, one line per device.
pub fn parse_storage_summary(lsblk_output: &str) -> (r: Vec<String>)
    ensures
        crate::text::views(r@) == storage_summary_of(lsblk_output@),
{
    let lines = split_lines(&chars_of(lsblk_output));
    let mut r: Vec<String> = Vec::new();
    if lines.len() == 0 {
        assert(crate::text::views(r@) =~= Seq::<Seq<char>>::empty());
        return r;
    }
    let header = &lines[0];
    let np = column_exec(header, "NAME");
    let sp = column_exec(header, "SIZE");
    let tp = column_exec(header, "TYPE");
    let mp = column_exec(header, "MOUNTPOINT");
    let ghost cols = (np as int, sp as int, tp as int, mp as int);
    let ghost body = char_views(lines@).drop_first();
    assert(cols == storage_columns(char_views(lines@)[0]));
    let mut i: usize = 1;
    assert(body.take(0) =~= Seq::<Seq<char>>::empty());
    assert(crate::text::views(r@) =~= Seq::<Seq<char>>::empty());
    while i < lines.len()
        invariant
            1 <= i <= lines.len(),
            body == char_views(lines@).drop_first(),
            cols == (np as int, sp as int, tp as int, mp as int),
            crate::text::views(r@) == storage_entries(body.take(i - 1), cols),
        decreases lines.len() - i,
    {
        let line = &lines[i];
        assert(body.take(i as int).drop_last() =~= body.take(i - 1));
        assert(body.take(i as int).last() == line@);
        let (a, b) = crate::text::trim_bounds(line, 0, line.len());
        assert(line@.subrange(0, line@.len() as int) =~= line@);
        if a < b {
            let name = cell(line, np, sp);
            let size = cell(line, sp, tp);
            let typ = cell(line, tp, mp);
            let end = byte_len(line);
            let mount = cell(line, mp, end);
            if name.len() > 0 && size.len() > 0 && typ.len() > 0 {
                let mut e = string_of(&name, 0, name.len());
                e.append(": ");
                e.append(string_of(&size, 0, size.len()).as_str());
                e.append(" [");
                e.append(string_of(&typ, 0, typ.len()).as_str());
                e.append("] mounted at ");
                e.append(string_of(&mount, 0, mount.len()).as_str());
                let ghost prev = r@;
                r.push(e);
                proof {
                    assert(name@.subrange(0, name@.len() as int) =~= name@);
                    assert(size@.subrange(0, size@.len() as int) =~= size@);
                    assert(typ@.subrange(0, typ@.len() as int) =~= typ@);
                    assert(mount@.subrange(0, mount@.len() as int) =~= mount@);
                    assert(crate::text::views(r@) =~= crate::text::views(prev).push(e@));
                }
            }
        }
        i += 1;
    }
    assert(body.take(lines.len() - 1) =~= body);
    r
}

/// The spacing of doubles around `n` (for `n < 2^64`): 1 below 2^53, then
/// doubling with each power of two.
pub open spec fn f64_unit(n: nat) -> nat {
    if n < 0x20000000000000 {
        1
    } else if n < 0x40000000000000 {
        0x2
    } else if n < 0x80000000000000 {
        0x4
    } else if n < 0x100000000000000 {
        0x8
    } else if n < 0x200000000000000 {
        0x10
    } else if n < 0x400000000000000 {
        0x20
    } else if n < 0x800000000000000 {
        0x40
    } else if n < 0x1000000000000000 {
        0x80
    } else if n < 0x2000000000000000 {
        0x100
    } else if n < 0x4000000000000000 {
        0x200
    } else if n < 0x8000000000000000 {
        0x400
    } else {
        0x800
    }
}

/// `n as f64`: the nearest double, ties to an even significand.
pub open spec fn nearest_f64(n: nat) -> nat {
    let u = f64_unit(n);
    let q = n / u;
    let r = n % u;
    (if 2 * r > u || (2 * r == u && q % 2 == 1) {
        q + 1
    } else {
        q
    }) * u
}

/// `x / d` rounded to an integer, ties to even.
pub open spec fn round_half_even(x: nat, d: nat) -> nat {
    let q = x / d;
    let r = x % d;
    if 2 * r > d || (2 * r == d && q % 2 == 1) {
        q + 1
    } else {
        q
    }
}

/// `{:.2}` of `k / d`: the value in hundredths, rounded half to even.
pub open spec fn fixed2(k: nat, d: nat) -> Seq<char> {
    let h = round_half_even(k * 100, d);
    crate::render::decimal(h / 100) + seq![
        '.',
        crate::render::digit_char((h % 100) / 10),
        crate::render::digit_char(h % 10),
    ]
}

/// A KiB amount as GiB from 1 GiB up, else as MiB, with two decimals.
pub open spec fn mem_text(kib: nat) -> Seq<char> {
    let k = nearest_f64(kib);
    if kib >= 0x100000 {
        fixed2(k, 0x100000) + " GiB"@
    } else {
        fixed2(k, 0x400) + " MiB"@
    }
}

fn f64_unit_exec(n: u128) -> (r: u128)
    ensures
        r == f64_unit(n as nat),
        1 <= r <= 0x800,
{
    if n < 0x20000000000000 {
        1
    } else if n < 0x40000000000000 {
        0x2
    } else if n < 0x80000000000000 {
        0x4
    } else if n < 0x100000000000000 {
        0x8
    } else if n < 0x200000000000000 {
        0x10
    } else if n < 0x400000000000000 {
        0x20
    } else if n < 0x800000000000000 {
        0x40
    } else if n < 0x1000000000000000 {
        0x80
    } else if n < 0x2000000000000000 {
        0x100
    } else if n < 0x4000000000000000 {
        0x200
    } else if n < 0x8000000000000000 {
        0x400
    } else {
        0x800
    }
}

fn round_half_even_exec(x: u128, d: u128) -> (r: u128)
    requires
        0 < d <= 0x100000,
        x <= 0x1_0000_0000_0000_0000_0000,
    ensures
        r == round_half_even(x as nat, d as nat),
        r <= x / d + 1,
{
    let q = x / d;
    let r = x % d;
    assert(r < d);
    assert(q <= x) by (nonlinear_arith)
        requires
            q == x / d,
            d > 0,
    ;
    if 2 * r > d || (2 * r == d && q % 2 == 1) {
        q + 1
    } else {
        q
    }
}

/// Formats a memory amount in KiB as `{:.2}` of GiB or MiB.
pub fn format_mem_kib(kib: u64) -> (r: String)
    ensures
        r@ == mem_text(kib as nat),
{
    let n = kib as u128;
    let u = f64_unit_exec(n);
    let q = round_half_even_exec(n, u);
    assert(q * u == nearest_f64(kib as nat));
    assert(q <= n / u + 1);
    assert((n / u) * u <= n) by (nonlinear_arith)
        requires
            u > 0,
    ;
    assert(q * u <= n + u) by (nonlinear_arith)
        requires
            q <= n / u + 1,
            (n / u) * u <= n,
            u > 0,
    ;
    let k = q * u;
    let d: u128 = if kib >= 0x100000 {
        0x100000
    } else {
        0x400
    };
    let h = round_half_even_exec(k * 100, d);
    let mut r = String::new();
    crate::render::push_decimal(&mut r, (h / 100) as u64);
    crate::text::push_char(&mut r, '.');
    let tens = ((h % 100) / 10) as u64;
    let ones = (h % 10) as u64;
    crate::text::push_char(&mut r, crate::render::digit(tens));
    crate::text::push_char(&mut r, crate::render::digit(ones));
    if kib >= 0x100000 {
        r.append(" GiB");
    } else {
        r.append(" MiB");
    }
    r
}

} // verus!
