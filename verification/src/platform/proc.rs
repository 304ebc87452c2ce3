//! procfs parsers: the aggregate CPU line of `/proc/stat` and the interface
//! counters of `/proc/net/dev`, plus the CPU usage ratio between two samples.

use vstd::prelude::*;
use vstd::string::*;

use crate::text::{
    all_digits, chars_of, digits_value, find_char, is_ws, lemma_run_until_at,
    lemma_run_until_concat, lemma_numeric_fields_concat, lemma_text_lines_concat,
    lemma_ws_tokens_concat, lemma_ws_tokens_single, line_ranges, numeric_fields, numeric_values,
    parse_u64, run_until, span, spans, spans_within, text_lines, token_ranges, trim, trim_range,
    ws_tokens,
};

verus! {

#[derive(Debug, Clone, Copy, PartialEq, Eq)]
pub struct CpuTimes {
    pub idle: u64,
    pub total: u64,
}

/// Sum of the values of `v`.
pub open spec fn seq_sum(v: Seq<u64>) -> int
    decreases v.len(),
{
    if v.len() == 0 {
        0
    } else {
        seq_sum(v.drop_last()) + v.last()
    }
}

/// The numeric fields after the leading `cpu` token, when `line` is the aggregate CPU line.
pub open spec fn cpu_fields(line: Seq<char>) -> Option<Seq<u64>> {
    let toks = ws_tokens(line);
    if toks.len() > 0 && toks[0] == seq!['c', 'p', 'u'] {
        Some(numeric_fields(toks.drop_first()))
    } else {
        None
    }
}

/// Summing the fields of an aggregate CPU line does not overflow 64 bits.
pub open spec fn cpu_fields_fit(line: Seq<char>) -> bool {
    match cpu_fields(line) {
        Some(v) => v.len() < 4 || seq_sum(v) <= u64::MAX,
        None => true,
    }
}

/// `/proc/stat` aggregate line: idle is the fourth plus the fifth numeric field
/// (idle + iowait, the fifth counting as 0 when absent), total the sum of all.
pub open spec fn spec_parse_proc_stat_cpu(line: Seq<char>) -> Option<CpuTimes> {
    match cpu_fields(line) {
        Some(v) => if v.len() < 4 {
            None
        } else {
            Some(
                CpuTimes {
                    idle: (v[3] + if v.len() > 4 {
                        v[4] as int
                    } else {
                        0
                    }) as u64,
                    total: seq_sum(v) as u64,
                },
            )
        },
        None => None,
    }
}

proof fn lemma_seq_sum_prefix_mono(v: Seq<u64>, k: int, m: int)
    requires
        0 <= k <= m <= v.len(),
    ensures
        seq_sum(v.take(k)) <= seq_sum(v.take(m)),
    decreases m - k,
{
    if k < m {
        lemma_seq_sum_prefix_mono(v, k, m - 1);
        assert(v.take(m).drop_last() =~= v.take(m - 1));
    }
}

proof fn lemma_seq_sum_two(v: Seq<u64>, i: int, j: int)
    requires
        0 <= i < j < v.len(),
    ensures
        v[i] + v[j] <= seq_sum(v),
{
    lemma_seq_sum_prefix_mono(v, 0, i);
    assert(v.take(i + 1).drop_last() =~= v.take(i));
    assert(v.take(0) =~= Seq::<u64>::empty());
    lemma_seq_sum_prefix_mono(v, i + 1, j);
    assert(v.take(j + 1).drop_last() =~= v.take(j));
    lemma_seq_sum_prefix_mono(v, j + 1, v.len() as int);
    assert(v.take(v.len() as int) =~= v);
}

/// The numeric fields of `line` after its leading token, when that token is exactly `cpu`.
pub fn cpu_line_fields(line: &str) -> (r: Option<Vec<u64>>)
    ensures
        match r {
            Some(v) => cpu_fields(line@) == Some(v@),
            None => cpu_fields(line@) is None,
        },
{
    let cs = chars_of(line);
    let n = cs.len();
    let rs = token_ranges(&cs, 0, n);
    proof {
        assert(cs@.subrange(0, n as int) =~= line@);
    }
    if rs.len() == 0 {
        return None;
    }
    let (a, b) = rs[0];
    let ghost first = spans(cs@, rs@)[0];
    assert(first == cs@.subrange(a as int, b as int));
    if !(b - a == 3 && cs[a] == 'c' && cs[a + 1] == 'p' && cs[a + 2] == 'u') {
        proof {
            if first.len() == 3 {
                assert(first[0] == cs@[a as int]);
                assert(first[1] == cs@[a + 1]);
                assert(first[2] == cs@[a + 2]);
            }
            assert(first != seq!['c', 'p', 'u']);
        }
        return None;
    }
    assert(first =~= seq!['c', 'p', 'u']);
    let v = numeric_values(&cs, &rs, 1);
    assert(spans(cs@, rs@).subrange(1, rs.len() as int) =~= spans(cs@, rs@).drop_first());
    Some(v)
}

/// Parses the aggregate `cpu` line of `/proc/stat`; per-core `cpuN` lines and
/// lines with fewer than four numeric fields give `None`.
pub fn parse_proc_stat_cpu(line: &str) -> (r: Option<CpuTimes>)
    requires
        cpu_fields_fit(line@),
    ensures
        r == spec_parse_proc_stat_cpu(line@),
{
    let v = match cpu_line_fields(line) {
        Some(v) => v,
        None => return None,
    };
    let n = v.len();
    if n < 4 {
        return None;
    }
    let mut total: u64 = 0;
    let mut i: usize = 0;
    assert(v@.take(0) =~= Seq::<u64>::empty());
    while i < n
        invariant
            i <= n == v.len(),
            seq_sum(v@) <= u64::MAX,
            total == seq_sum(v@.take(i as int)),
        decreases n - i,
    {
        proof {
            lemma_seq_sum_prefix_mono(v@, i + 1, n as int);
            assert(v@.take(n as int) =~= v@);
            assert(v@.take(i + 1).drop_last() =~= v@.take(i as int));
        }
        total = total + v[i];
        i = i + 1;
    }
    assert(v@.take(n as int) =~= v@);
    let extra = if n > 4 {
        proof {
            lemma_seq_sum_two(v@, 3, 4);
        }
        v[4]
    } else {
        0
    };
    proof {
        lemma_seq_sum_prefix_mono(v@, 3, 4);
        lemma_seq_sum_prefix_mono(v@, 4, n as int);
        assert(v@.take(4).drop_last() =~= v@.take(3));
    }
    Some(CpuTimes { idle: v[3] + extra, total })
}

/// The CPU times of the first line of `ls` that is an aggregate CPU line.
pub open spec fn first_cpu_times(ls: Seq<Seq<char>>) -> Option<CpuTimes>
    decreases ls.len(),
{
    if ls.len() == 0 {
        None
    } else {
        match spec_parse_proc_stat_cpu(ls[0]) {
            Some(t) => Some(t),
            None => first_cpu_times(ls.drop_first()),
        }
    }
}

/// Every line of `ls` up to and including the first aggregate CPU line sums without overflow.
pub open spec fn stat_lines_fit(ls: Seq<Seq<char>>) -> bool
    decreases ls.len(),
{
    if ls.len() == 0 {
        true
    } else {
        cpu_fields_fit(ls[0]) && (spec_parse_proc_stat_cpu(ls[0]) is Some || stat_lines_fit(
            ls.drop_first(),
        ))
    }
}

/// The aggregate CPU times of a whole `/proc/stat`: those of its first line
/// that parses as the aggregate `cpu` line (per-core lines are passed over).
pub fn parse_proc_stat(contents: &str) -> (r: Option<CpuTimes>)
    requires
        stat_lines_fit(text_lines(contents@)),
    ensures
        r == first_cpu_times(text_lines(contents@)),
{
    let cs = chars_of(contents);
    let lines = line_ranges(&cs);
    let ghost ls = text_lines(cs@);
    let n = lines.len();
    let mut k: usize = 0;
    assert(ls.subrange(0, n as int) =~= ls);
    while k < n
        invariant
            k <= n == lines.len(),
            cs@ == contents@,
            ls == text_lines(cs@),
            spans(cs@, lines@) == ls,
            spans_within(lines@, 0, cs.len() as int),
            first_cpu_times(ls) == first_cpu_times(ls.subrange(k as int, n as int)),
            stat_lines_fit(ls.subrange(k as int, n as int)),
        decreases n - k,
    {
        let ghost rest = ls.subrange(k as int, n as int);
        let (a, b) = lines[k];
        proof {
            assert(lines@[k as int] == (a, b));
            assert(rest[0] == cs@.subrange(a as int, b as int));
            assert(rest.drop_first() =~= ls.subrange(k + 1, n as int));
        }
        let line = contents.substring_char(a, b);
        match parse_proc_stat_cpu(line) {
            Some(t) => {
                return Some(t);
            },
            None => {},
        }
        k = k + 1;
    }
    None
}

/// Busy and total jiffies between two CPU samples.
#[derive(Debug, Clone, Copy, PartialEq, Eq)]
pub struct CpuUsage {
    pub busy: u64,
    pub total: u64,
}

/// No ratio when the total counter did not advance (or went backwards); an idle
/// counter that went backwards counts as no idle time, a busy share larger than
/// the total counts as the whole total.
pub open spec fn spec_cpu_usage(previous: CpuTimes, current: CpuTimes) -> Option<CpuUsage> {
    if current.total <= previous.total {
        None
    } else {
        let total = current.total - previous.total;
        let idle = if current.idle >= previous.idle {
            current.idle - previous.idle
        } else {
            0
        };
        Some(CpuUsage { busy: (if total >= idle { total - idle } else { 0 }) as u64, total: total as u64 })
    }
}

/// The jiffies elapsed between two samples less the idle jiffies elapsed,
/// counting an idle counter that went backwards as no idle time and never
/// going below zero.
pub open spec fn elapsed_busy(previous: CpuTimes, current: CpuTimes) -> int {
    let elapsed = current.total - previous.total;
    let idle = if current.idle >= previous.idle {
        current.idle - previous.idle
    } else {
        0
    };
    if elapsed >= idle {
        elapsed - idle
    } else {
        0
    }
}

/// The usage between two samples measures the jiffies elapsed between them:
/// there is a usage exactly when the total counter advanced, its total is
/// that advance and its busy part that advance less the idle advance.
pub proof fn law_cpu_usage_measures_elapsed_jiffies(previous: CpuTimes, current: CpuTimes)
    ensures
        spec_cpu_usage(previous, current) is None <==> current.total <= previous.total,
        spec_cpu_usage(previous, current) matches Some(u) ==> {
            &&& u.total == current.total - previous.total
            &&& u.busy == elapsed_busy(previous, current)
            &&& 0 < u.total
            &&& u.busy <= u.total
        },
{
}

/// The busy share of the jiffies elapsed between `previous` and `current`;
/// the percentage is `busy / total * 100`.
pub fn cpu_usage_ratio(previous: CpuTimes, current: CpuTimes) -> (r: Option<CpuUsage>)
    ensures
        r == spec_cpu_usage(previous, current),
        r matches Some(u) ==> 0 < u.total && u.busy <= u.total,
        r is None <==> current.total <= previous.total,
        r matches Some(u) ==> u.total == current.total - previous.total,
        r matches Some(u) ==> u.busy == elapsed_busy(previous, current),
{
    let total_delta = match current.total.checked_sub(previous.total) {
        Some(d) => d,
        None => return None,
    };
    if total_delta == 0 {
        return None;
    }
    let idle_delta = current.idle.saturating_sub(previous.idle);
    Some(CpuUsage { busy: total_delta.saturating_sub(idle_delta), total: total_delta })
}

#[derive(Debug, Clone, PartialEq, Eq)]
pub struct NetworkCounters {
    pub interface: String,
    pub rx_bytes: u64,
    pub tx_bytes: u64,
}

impl View for NetworkCounters {
    type V = (Seq<char>, u64, u64);

    open spec fn view(&self) -> (Seq<char>, u64, u64) {
        (self.interface@, self.rx_bytes, self.tx_bytes)
    }
}

/// One `/proc/net/dev` row: the trimmed text before the first `':'`, and the
/// first and ninth of the numeric fields after it; `None` without a `':'` or
/// with fewer than nine numeric fields.
pub open spec fn net_dev_entry(line: Seq<char>) -> Option<(Seq<char>, u64, u64)> {
    let colon = run_until(line, |c: char| c == ':');
    if colon >= line.len() {
        None
    } else {
        let values = numeric_fields(ws_tokens(line.subrange(colon + 1 as int, line.len() as int)));
        if values.len() < 9 {
            None
        } else {
            Some((trim(line.take(colon as int)), values[0], values[8]))
        }
    }
}

proof fn lemma_colon_at(pre: Seq<char>, after: Seq<char>)
    requires
        forall|k: int| 0 <= k < pre.len() ==> pre[k] != ':',
    ensures
        run_until(pre + seq![':'] + after, |c: char| c == ':') == pre.len(),
        (pre + seq![':'] + after).take(pre.len() as int) == pre,
        (pre + seq![':'] + after).subrange(
            pre.len() + 1int,
            (pre + seq![':'] + after).len() as int,
        ) == after,
{
    let stop = |c: char| c == ':';
    lemma_run_until_at(pre, stop, 0, pre.len() as int);
    assert(pre.subrange(0, pre.len() as int) =~= pre);
    let b = seq![':'] + after;
    assert(pre + seq![':'] + after =~= pre + b);
    assert(b[0] == ':');
    lemma_run_until_concat(pre, b, stop);
    let line = pre + seq![':'] + after;
    assert(line.take(pre.len() as int) =~= pre);
    assert(line.subrange(pre.len() + 1int, line.len() as int) =~= after);
}

/// A row's counters come only from the text after its first `':'`: a space
/// put right after the colon changes nothing, whether or not the first
/// counter was written against the colon.
pub proof fn law_net_dev_row_reads_after_colon(pre: Seq<char>, rest: Seq<char>)
    requires
        forall|k: int| 0 <= k < pre.len() ==> pre[k] != ':',
    ensures
        net_dev_entry(pre + seq![':'] + rest) == net_dev_entry(pre + seq![':', ' '] + rest),
{
    lemma_colon_at(pre, rest);
    lemma_colon_at(pre, seq![' '] + rest);
    assert(pre + seq![':', ' '] + rest =~= pre + seq![':'] + (seq![' '] + rest));
    let b = seq![' '] + rest;
    assert(is_ws(b[0]));
    assert(b.drop_first() =~= rest);
    assert(ws_tokens(b) == ws_tokens(rest));
}

/// A row `<name>:<d> <more>`, whose first counter is the digits `d`
/// (written against the colon or not): it names the interface by the
/// trimmed text before the colon, reads `d` as the received bytes and the
/// eighth number of `more` (the ninth counter) as the sent bytes, and is
/// dropped when `more` holds fewer than eight numbers.
pub proof fn law_net_dev_row_counters(pre: Seq<char>, d: Seq<char>, more: Seq<char>)
    requires
        forall|k: int| 0 <= k < pre.len() ==> pre[k] != ':',
        d.len() > 0,
        all_digits(d),
        digits_value(d) <= u64::MAX,
    ensures
        net_dev_entry(pre + seq![':'] + d + seq![' '] + more) == if numeric_fields(
            ws_tokens(more),
        ).len() >= 8 {
            Some((trim(pre), digits_value(d) as u64, numeric_fields(ws_tokens(more))[7]))
        } else {
            None::<(Seq<char>, u64, u64)>
        },
{
    let after = d + (seq![' '] + more);
    assert(pre + seq![':'] + d + seq![' '] + more =~= pre + seq![':'] + after);
    lemma_colon_at(pre, after);
    let b = seq![' '] + more;
    assert(is_ws(b[0]));
    lemma_ws_tokens_concat(d, b);
    assert forall|k: int| 0 <= k < d.len() implies !is_ws(#[trigger] d[k]) by {
        assert(48 <= d[k] as u32 <= 57);
    }
    lemma_ws_tokens_single(d);
    assert(b.drop_first() =~= more);
    assert(ws_tokens(b) == ws_tokens(more));
    let toks = seq![d] + ws_tokens(more);
    assert(ws_tokens(after) == toks);
    assert(!(d.len() > 1 && d[0] == '+')) by {
        assert(48 <= d[0] as u32 <= 57);
    }
    assert(parse_u64(d) == Some(digits_value(d) as u64));
    lemma_numeric_fields_concat(seq![d], ws_tokens(more));
    let single = seq![d];
    assert(single[0] == d);
    assert(single.drop_first() =~= Seq::<Seq<char>>::empty());
    assert(numeric_fields(single.drop_first()) =~= Seq::<u64>::empty());
    assert(numeric_fields(single) =~= seq![digits_value(d) as u64]);
    let values = numeric_fields(toks);
    assert(values =~= seq![digits_value(d) as u64] + numeric_fields(ws_tokens(more)));
}

pub open spec fn net_dev_entries(ls: Seq<Seq<char>>) -> Seq<(Seq<char>, u64, u64)>
    decreases ls.len(),
{
    if ls.len() == 0 {
        seq![]
    } else {
        match net_dev_entry(ls[0]) {
            Some(e) => seq![e] + net_dev_entries(ls.drop_first()),
            None => net_dev_entries(ls.drop_first()),
        }
    }
}

/// The rows of `/proc/net/dev` after its two header lines.
pub open spec fn spec_parse_proc_net_dev(contents: Seq<char>) -> Seq<(Seq<char>, u64, u64)> {
    let ls = text_lines(contents);
    if ls.len() <= 2 {
        seq![]
    } else {
        net_dev_entries(ls.subrange(2, ls.len() as int))
    }
}

proof fn lemma_net_dev_entries_concat(x: Seq<Seq<char>>, y: Seq<Seq<char>>)
    ensures
        net_dev_entries(x + y) == net_dev_entries(x) + net_dev_entries(y),
    decreases x.len(),
{
    if x.len() == 0 {
        assert(x + y =~= y);
        assert(net_dev_entries(x) + net_dev_entries(y) =~= net_dev_entries(y));
    } else {
        assert((x + y)[0] == x[0]);
        assert((x + y).drop_first() =~= x.drop_first() + y);
        lemma_net_dev_entries_concat(x.drop_first(), y);
        assert(net_dev_entries(x + y) =~= net_dev_entries(x) + net_dev_entries(y));
    }
}

/// Each row of `/proc/net/dev` after the two header lines parses on its own:
/// the rows of `contents` followed by `more` are those of `contents`, then
/// those that `more` gives below any other two header lines.
pub proof fn law_net_dev_rows_parse_independently(
    contents: Seq<char>,
    header: Seq<char>,
    more: Seq<char>,
)
    requires
        text_lines(contents).len() >= 2,
        contents.last() == '\n',
        text_lines(header).len() == 2,
        header.last() == '\n',
    ensures
        spec_parse_proc_net_dev(contents + more) == spec_parse_proc_net_dev(contents)
            + spec_parse_proc_net_dev(header + more),
{
    let l = text_lines(contents);
    let h = text_lines(header);
    let m = text_lines(more);
    assert(contents.len() > 0);
    assert(header.len() > 0);
    lemma_text_lines_concat(contents, more);
    lemma_text_lines_concat(header, more);
    let lm = l + m;
    let hm = h + m;
    let body = l.subrange(2, l.len() as int);
    assert(lm.subrange(2, lm.len() as int) =~= body + m);
    assert(hm.subrange(2, hm.len() as int) =~= m);
    lemma_net_dev_entries_concat(body, m);
    if l.len() == 2 {
        assert(body =~= Seq::<Seq<char>>::empty());
        assert(net_dev_entries(body) =~= Seq::<(Seq<char>, u64, u64)>::empty());
    }
    if m.len() == 0 {
        assert(net_dev_entries(m) =~= Seq::<(Seq<char>, u64, u64)>::empty());
    }
    assert(spec_parse_proc_net_dev(contents + more) =~= spec_parse_proc_net_dev(contents)
        + spec_parse_proc_net_dev(header + more));
}

/// A field that is not a number, appended to a `/proc/stat` line that has
/// at least one field, leaves what the line parses to unchanged: such fields
/// are skipped and never make a line fail.
pub proof fn law_stat_ignores_non_numeric_field(line: Seq<char>, tok: Seq<char>)
    requires
        ws_tokens(line).len() > 0,
        tok.len() > 0,
        forall|k: int| 0 <= k < tok.len() ==> !is_ws(#[trigger] tok[k]),
        parse_u64(tok) is None,
    ensures
        spec_parse_proc_stat_cpu(line + seq![' '] + tok) == spec_parse_proc_stat_cpu(line),
        cpu_fields_fit(line + seq![' '] + tok) == cpu_fields_fit(line),
{
    let b = seq![' '] + tok;
    assert(line + seq![' '] + tok =~= line + b);
    assert(is_ws(b[0]));
    lemma_ws_tokens_concat(line, b);
    assert(b.drop_first() =~= tok);
    lemma_ws_tokens_single(tok);
    assert(ws_tokens(b) == ws_tokens(tok));
    let toks = ws_tokens(line);
    let all = toks + seq![tok];
    assert(ws_tokens(line + b) == all);
    assert(all[0] == toks[0]);
    assert(all.drop_first() =~= toks.drop_first() + seq![tok]);
    lemma_numeric_fields_concat(toks.drop_first(), seq![tok]);
    let single = seq![tok];
    assert(single[0] == tok);
    assert(single.drop_first() =~= Seq::<Seq<char>>::empty());
    assert(numeric_fields(single.drop_first()) =~= Seq::<u64>::empty());
    assert(numeric_fields(single) =~= Seq::<u64>::empty());
    assert(numeric_fields(all.drop_first()) =~= numeric_fields(toks.drop_first()));
    assert(cpu_fields(line + b) == cpu_fields(line));
}

pub open spec fn counters_view(v: Seq<NetworkCounters>) -> Seq<(Seq<char>, u64, u64)> {
    v.map_values(|c: NetworkCounters| c@)
}

/// Parses `/proc/net/dev`: skips the two header lines, drops rows without a
/// `':'` or with fewer than nine numeric fields, reads received bytes from the
/// first and transmitted bytes from the ninth numeric field.
pub fn parse_proc_net_dev(contents: &str) -> (out: Vec<NetworkCounters>)
    ensures
        counters_view(out@) == spec_parse_proc_net_dev(contents@),
{
    let cs = chars_of(contents);
    let lines = line_ranges(&cs);
    let ghost ls = text_lines(cs@);
    let n = lines.len();
    let mut out: Vec<NetworkCounters> = Vec::new();
    if n <= 2 {
        assert(counters_view(out@) =~= seq![]);
        return out;
    }
    let mut k: usize = 2;
    assert(counters_view(out@) =~= seq![]);
    while k < n
        invariant
            2 <= k <= n == lines.len(),
            cs@ == contents@,
            ls == text_lines(cs@),
            spans(cs@, lines@) == ls,
            spans_within(lines@, 0, cs.len() as int),
            net_dev_entries(ls.subrange(2, n as int)) == counters_view(out@) + net_dev_entries(
                ls.subrange(k as int, n as int),
            ),
        decreases n - k,
    {
        let ghost rest = ls.subrange(k as int, n as int);
        let (a, b) = lines[k];
        let ghost line = cs@.subrange(a as int, b as int);
        proof {
            assert(lines@[k as int] == (a, b));
            assert(rest[0] == line);
            assert(rest.drop_first() =~= ls.subrange(k + 1, n as int));
        }
        let ghost old_out = counters_view(out@);
        match find_char(&cs, a, b, ':') {
            None => {},
            Some(colon) => {
                let toks = token_ranges(&cs, colon + 1, b);
                let values = numeric_values(&cs, &toks, 0);
                proof {
                    assert(line.subrange(colon - a + 1, line.len() as int) =~= cs@.subrange(
                        colon + 1,
                        b as int,
                    ));
                    assert(spans(cs@, toks@).subrange(0, toks.len() as int) =~= spans(
                        cs@,
                        toks@,
                    ));
                    assert(spans_within(toks@, 0, cs.len() as int));
                }
                if values.len() >= 9 {
                    let (ta, tb) = trim_range(&cs, a, colon);
                    let name = String::from_str(contents.substring_char(ta, tb));
                    proof {
                        assert(line.take(colon - a) =~= cs@.subrange(a as int, colon as int));
                    }
                    out.push(
                        NetworkCounters { interface: name, rx_bytes: values[0], tx_bytes: values[8] },
                    );
                    assert(counters_view(out@) =~= old_out + seq![
                        (trim(line.take(colon - a)), values@[0], values@[8]),
                    ]);
                }
            },
        }
        k = k + 1;
    }
    proof {
        assert(ls.subrange(k as int, n as int) =~= Seq::<Seq<char>>::empty());
        assert(counters_view(out@) + seq![] =~= counters_view(out@));
    }
    out
}

} // verus!
