use vstd::prelude::*;
use crate::formatting::{all_renderable, decimal, renderable, rerender, spec_rerender, u64_to_decimal};
use crate::history::HistoryEntry;
use crate::json::{entry_views, lemma_entry_views, str_eq, Json};
use crate::text::{
    cat, cat3, cat4, cat5, copy_str, lemma_split_join, lemma_split_pieces, lemma_trim_idempotent,
    lemma_trim_keeps_chars, seq_join, split_on, split_str, trim, trim_str, views,
};
use crate::types::{spec_format_index, OutputFormat};

verus! {

// ---------------------------------------------------------------------------
// The input lines of a batch
// ---------------------------------------------------------------------------

/// The pieces that are processed, trimmed: empty ones and those starting
/// with `#` (comments) are left out.
pub open spec fn kept_lines(parts: Seq<Seq<char>>) -> Seq<Seq<char>>
    decreases parts.len(),
{
    if parts.len() == 0 {
        seq![]
    } else {
        let t = trim(parts.last());
        let prev = kept_lines(parts.drop_last());
        if t.len() > 0 && t[0] != '#' {
            prev.push(t)
        } else {
            prev
        }
    }
}

/// The lines of an input text that are processed.
pub open spec fn spec_input_lines(input: Seq<char>) -> Seq<Seq<char>> {
    kept_lines(split_on(input, '\n'))
}

/// The lines of an input text that are processed, one DOI or link each.
pub fn parse_input_lines(input: &str) -> (r: Vec<String>)
    ensures
        views(r@) == spec_input_lines(input@),
{
    let parts = split_str(input, '\n');
    let ghost pv = views(parts@);
    let mut out: Vec<String> = Vec::new();
    let mut i: usize = 0;
    while i < parts.len()
        invariant
            pv == views(parts@),
            i <= parts@.len(),
            views(out@) == kept_lines(pv.take(i as int)),
        decreases parts@.len() - i,
    {
        let t = trim_str(parts[i].as_str());
        let ghost tk = pv.take(i + 1);
        assert(tk.drop_last() =~= pv.take(i as int));
        assert(tk.last() == parts@[i as int]@);
        let keep = if t.as_str().is_empty() {
            false
        } else {
            let first = crate::text::chars_of(t.as_str());
            first[0] != '#'
        };
        if keep {
            let ghost before = views(out@);
            out.push(t);
            assert(views(out@) =~= before.push(t@));
        }
        i = i + 1;
    }
    assert(pv.take(parts@.len() as int) =~= pv);
    out
}

// ---------------------------------------------------------------------------
// Status messages
// ---------------------------------------------------------------------------

/// The status line when the input has no lines to process.
pub open spec fn no_entries_message() -> Seq<char> {
    "No entries found."@
}

/// The status line that opens a batch of `n` lines.
pub open spec fn spec_found_message(n: nat) -> Seq<char> {
    "Found "@ + decimal(n) + " entr"@ + (if n == 1 {
        "y"@
    } else {
        "ies"@
    }) + ". Resolving DOIs…\n"@
}

/// `[i+1/total] line`: the start of the status line of line `i`.
pub open spec fn step_head(i: nat, total: nat, line: Seq<char>) -> Seq<char> {
    "["@ + decimal(i + 1) + "/"@ + decimal(total) + "] "@ + line
}

/// The last status line of a batch.
pub open spec fn spec_done_message(success: nat, failed: nat) -> Seq<char> {
    "\nDone. Success: "@ + decimal(success) + "  Failed: "@ + decimal(failed)
}

/// The status line that opens a batch of `n` lines.
pub fn found_message(n: usize) -> (r: String)
    ensures
        r@ == spec_found_message(n as nat),
{
    let d = u64_to_decimal(n as u64);
    let mut r = cat4("Found ", d.as_str(), " entr", if n == 1 { "y" } else { "ies" });
    r.append(". Resolving DOIs…\n");
    r
}

fn step_head_of(i: usize, total: usize, line: &str) -> (r: String)
    requires
        i < total,
    ensures
        r@ == step_head(i as nat, total as nat, line@),
{
    let a = u64_to_decimal((i + 1) as u64);
    let b = u64_to_decimal(total as u64);
    let mut r = cat5("[", a.as_str(), "/", b.as_str(), "] ");
    r.append(line);
    r
}

// ---------------------------------------------------------------------------
// A batch in progress
// ---------------------------------------------------------------------------

/// A batch run: the lines to process, the status lines shown so far, the
/// metadata found, and the rendered output. Each line ends as a success or a
/// failure, so `success + failed` is the position of the next line.
pub struct Batch {
    pub lines: Vec<String>,
    pub fmt: OutputFormat,
    pub status: Vec<String>,
    pub results: Vec<(String, Json)>,
    pub output: String,
    pub success: usize,
    pub failed: usize,
}

impl Batch {
    /// The position of the line being processed.
    pub open spec fn position(self) -> int {
        self.success + self.failed
    }

    /// The counts stay within the lines, and every result can be rendered.
    pub open spec fn wf(self) -> bool {
        &&& self.success + self.failed <= self.lines@.len()
        &&& all_renderable(entry_views(self.results@))
        &&& self.status@.len() >= 1
    }

    /// A line is being processed: its progress line is the last status line.
    pub open spec fn in_step(self) -> bool {
        &&& self.wf()
        &&& self.position() < self.lines@.len()
    }

    /// The position of the line being processed, computed.
    fn pos(&self) -> (r: usize)
        requires
            self.wf(),
        ensures
            r == self.position(),
    {
        let n = self.lines.len();
        assert(self.success + self.failed <= n);
        self.success + self.failed
    }

    /// Starts a batch on an input text.
    pub fn start(input: &str, fmt: OutputFormat) -> (r: Batch)
        ensures
            r.wf(),
            views(r.lines@) == spec_input_lines(input@),
            r.fmt == fmt,
            views(r.status@) == if r.lines@.len() == 0 {
                seq![no_entries_message()]
            } else {
                seq![spec_found_message(r.lines@.len() as nat)]
            },
            r.results@.len() == 0,
            r.output@.len() == 0,
            r.success == 0,
            r.failed == 0,
    {
        let lines = parse_input_lines(input);
        let mut status: Vec<String> = Vec::new();
        if lines.len() == 0 {
            status.push(copy_str("No entries found."));
        } else {
            status.push(found_message(lines.len()));
        }
        let results: Vec<(String, Json)> = Vec::new();
        proof {
            lemma_entry_views(results@);
        }
        assert(views(status@) =~= if lines@.len() == 0 {
            seq![no_entries_message()]
        } else {
            seq![spec_found_message(lines@.len() as nat)]
        });
        Batch { lines, fmt, status, results, output: String::new(), success: 0, failed: 0 }
    }

    /// Whether a line is left to process.
    pub fn has_next(&self) -> (r: bool)
        requires
            self.wf(),
        ensures
            r == (self.position() < self.lines@.len()),
    {
        self.pos() < self.lines.len()
    }

    /// The line being processed.
    pub fn current_line(&self) -> (r: &str)
        requires
            self.in_step(),
        ensures
            r@ == self.lines@[self.position()]@,
    {
        let i = self.pos();
        self.lines[i].as_str()
    }

    fn set_last(&mut self, line: String)
        requires
            old(self).status@.len() >= 1,
        ensures
            final(self).status@.len() == old(self).status@.len(),
            views(final(self).status@) == views(old(self).status@).update(old(self).status@.len() - 1, line@),
            final(self).lines == old(self).lines,
            final(self).fmt == old(self).fmt,
            final(self).results == old(self).results,
            final(self).output == old(self).output,
            final(self).success == old(self).success,
            final(self).failed == old(self).failed,
    {
        let ghost before = views(self.status@);
        let k = self.status.len() - 1;
        self.status.set(k, line);
        assert(views(self.status@) =~= before.update(k as int, line@));
    }

    /// Announces the line being processed: `[i/n] line …`.
    pub fn begin_line(&mut self)
        requires
            old(self).in_step(),
        ensures
            final(self).in_step(),
            views(final(self).status@) == views(old(self).status@).push(
                step_head(old(self).position() as nat, old(self).lines@.len() as nat, old(self).lines@[old(self).position()]@) + " …"@,
            ),
            final(self).lines == old(self).lines,
            final(self).results == old(self).results,
            final(self).output == old(self).output,
            final(self).success == old(self).success,
            final(self).failed == old(self).failed,
            final(self).fmt == old(self).fmt,
    {
        let i = self.pos();
        let head = step_head_of(i, self.lines.len(), self.lines[i].as_str());
        let line = cat(head.as_str(), " …");
        let ghost before = views(self.status@);
        self.status.push(line);
        assert(views(self.status@) =~= before.push(line@));
    }

    /// The line gave no DOI: `[i/n] line NO DOI: error`, and one more failure.
    pub fn resolve_failed(&mut self, error: &str)
        requires
            old(self).in_step(),
        ensures
            final(self).wf(),
            views(final(self).status@) == views(old(self).status@).update(
                old(self).status@.len() - 1,
                step_head(old(self).position() as nat, old(self).lines@.len() as nat, old(self).lines@[old(self).position()]@) + " NO DOI: "@ + error@,
            ),
            final(self).failed == old(self).failed + 1,
            final(self).success == old(self).success,
            final(self).lines == old(self).lines,
            final(self).results == old(self).results,
            final(self).output == old(self).output,
            final(self).fmt == old(self).fmt,
    {
        let i = self.pos();
        let head = step_head_of(i, self.lines.len(), self.lines[i].as_str());
        let line = cat3(head.as_str(), " NO DOI: ", error);
        self.set_last(line);
        self.failed = self.failed + 1;
    }

    /// The line gave a DOI; when it differs from the line, the status shows
    /// `[i/n] line → doi …`.
    pub fn resolved(&mut self, doi: &str)
        requires
            old(self).in_step(),
        ensures
            final(self).in_step(),
            views(final(self).status@) == if doi@ == old(self).lines@[old(self).position()]@ {
                views(old(self).status@)
            } else {
                views(old(self).status@).update(
                    old(self).status@.len() - 1,
                    step_head(old(self).position() as nat, old(self).lines@.len() as nat, old(self).lines@[old(self).position()]@) + " → "@ + doi@ + " …"@,
                )
            },
            final(self).lines == old(self).lines,
            final(self).results == old(self).results,
            final(self).output == old(self).output,
            final(self).success == old(self).success,
            final(self).failed == old(self).failed,
            final(self).fmt == old(self).fmt,
    {
        let i = self.pos();
        if !str_eq(doi, self.lines[i].as_str()) {
            let head = step_head_of(i, self.lines.len(), self.lines[i].as_str());
            let line = cat4(head.as_str(), " → ", doi, " …");
            self.set_last(line);
        }
    }

    /// The metadata of the line arrived: it joins the results, the output is
    /// rendered again from all results, the status shows `[i/n] line OK`.
    pub fn fetched(&mut self, doi: String, meta: Json)
        requires
            old(self).in_step(),
            renderable(meta@),
        ensures
            final(self).wf(),
            entry_views(final(self).results@) == entry_views(old(self).results@).push((doi@, meta@)),
            final(self).output@ == spec_rerender(entry_views(final(self).results@), old(self).fmt),
            views(final(self).status@) == views(old(self).status@).update(
                old(self).status@.len() - 1,
                step_head(old(self).position() as nat, old(self).lines@.len() as nat, old(self).lines@[old(self).position()]@) + " OK"@,
            ),
            final(self).success == old(self).success + 1,
            final(self).failed == old(self).failed,
            final(self).lines == old(self).lines,
            final(self).fmt == old(self).fmt,
    {
        let ghost rv = entry_views(self.results@);
        let ghost item = (doi@, meta@);
        proof {
            lemma_entry_views(self.results@);
        }
        self.results.push((doi, meta));
        proof {
            lemma_entry_views(self.results@);
            assert(entry_views(self.results@) =~= rv.push(item));
        }
        self.output = rerender(self.results.as_slice(), self.fmt);
        let i = self.pos();
        let head = step_head_of(i, self.lines.len(), self.lines[i].as_str());
        let line = cat(head.as_str(), " OK");
        self.set_last(line);
        self.success = self.success + 1;
    }

    /// No metadata for the line: `[i/n] line FAILED: error`, and one more failure.
    pub fn fetch_failed(&mut self, error: &str)
        requires
            old(self).in_step(),
        ensures
            final(self).wf(),
            views(final(self).status@) == views(old(self).status@).update(
                old(self).status@.len() - 1,
                step_head(old(self).position() as nat, old(self).lines@.len() as nat, old(self).lines@[old(self).position()]@) + " FAILED: "@ + error@,
            ),
            final(self).failed == old(self).failed + 1,
            final(self).success == old(self).success,
            final(self).lines == old(self).lines,
            final(self).results == old(self).results,
            final(self).output == old(self).output,
            final(self).fmt == old(self).fmt,
    {
        let i = self.pos();
        let head = step_head_of(i, self.lines.len(), self.lines[i].as_str());
        let line = cat3(head.as_str(), " FAILED: ", error);
        self.set_last(line);
        self.failed = self.failed + 1;
    }

    /// Closes the batch with its counts.
    pub fn finish(&mut self)
        requires
            old(self).wf(),
        ensures
            final(self).wf(),
            views(final(self).status@) == views(old(self).status@).push(
                spec_done_message(old(self).success as nat, old(self).failed as nat),
            ),
            final(self).success == old(self).success,
            final(self).failed == old(self).failed,
            final(self).lines == old(self).lines,
            final(self).results == old(self).results,
            final(self).output == old(self).output,
            final(self).fmt == old(self).fmt,
    {
        let s = u64_to_decimal(self.success as u64);
        let f = u64_to_decimal(self.failed as u64);
        let line = cat4("\nDone. Success: ", s.as_str(), "  Failed: ", f.as_str());
        let ghost before = views(self.status@);
        self.status.push(line);
        assert(views(self.status@) =~= before.push(line@));
    }

    /// Whether the batch is saved to the history: when anything succeeded.
    pub fn worth_saving(&self) -> (r: bool)
        ensures
            r == (self.success > 0),
    {
        self.success > 0
    }

    /// The history entry of the batch, stamped with the given time.
    pub fn history_entry(&self, timestamp_ms: i64, date_str: String, time_str: String) -> (r: HistoryEntry)
        ensures
            r.id@ == spec_i64_decimal(timestamp_ms as int),
            r.timestamp_ms == timestamp_ms,
            r.date_str == date_str,
            r.time_str == time_str,
            views(r.doi_inputs@) == views(self.lines@),
            r.output@ == self.output@,
            r.format_index == spec_format_index(self.fmt),
            r.success == self.success,
            r.failed == self.failed,
    {
        let mut inputs: Vec<String> = Vec::new();
        let mut i: usize = 0;
        while i < self.lines.len()
            invariant
                i <= self.lines@.len(),
                views(inputs@) == views(self.lines@).take(i as int),
            decreases self.lines@.len() - i,
        {
            let ghost before = views(inputs@);
            let x = copy_str(self.lines[i].as_str());
            inputs.push(x);
            assert(views(inputs@) =~= before.push(x@));
            assert(views(self.lines@)[i as int] == self.lines@[i as int]@);
            assert(views(inputs@) =~= views(self.lines@).take(i + 1));
            i = i + 1;
        }
        assert(views(self.lines@).take(self.lines@.len() as int) =~= views(self.lines@));
        HistoryEntry {
            id: i64_to_decimal(timestamp_ms),
            timestamp_ms,
            date_str,
            time_str,
            doi_inputs: inputs,
            output: copy_str(self.output.as_str()),
            format_index: self.fmt.to_index(),
            success: self.success,
            failed: self.failed,
        }
    }
}

/// The decimal notation of a signed number (`i64::to_string`).
pub open spec fn spec_i64_decimal(n: int) -> Seq<char> {
    if n < 0 {
        "-"@ + decimal((-n) as nat)
    } else {
        decimal(n as nat)
    }
}

/// Writes a signed number in decimal.
pub fn i64_to_decimal(n: i64) -> (r: String)
    ensures
        r@ == spec_i64_decimal(n as int),
{
    if n < 0 {
        let m: u64 = (-(n as i128)) as u64;
        let d = u64_to_decimal(m);
        cat("-", d.as_str())
    } else {
        u64_to_decimal(n as u64)
    }
}

/// The format picked in the format list: the option's value as a number,
/// `0` when it is none (`str::parse::<usize>().unwrap_or(0)`).
pub open spec fn spec_parse_index(s: Seq<char>) -> nat {
    let digits = index_digits(s);
    if digits.len() > 0 && all_digits(digits) {
        let v = digits_value(digits);
        if v <= usize::MAX {
            v
        } else {
            0
        }
    } else {
        0
    }
}

/// The text of a number without its optional `+` sign.
pub open spec fn index_digits(s: Seq<char>) -> Seq<char> {
    if s.len() > 0 && s[0] == '+' {
        s.skip(1)
    } else {
        s
    }
}

/// Every character is an ASCII digit.
pub open spec fn all_digits(d: Seq<char>) -> bool {
    forall|i: int| 0 <= i < d.len() ==> crate::text::is_ascii_digit(#[trigger] d[i])
}

/// The number written by a sequence of decimal digits.
pub open spec fn digits_value(d: Seq<char>) -> nat
    decreases d.len(),
{
    if d.len() == 0 {
        0
    } else {
        digits_value(d.drop_last()) * 10 + ((d.last() as u32) - ('0' as u32)) as nat
    }
}

/// Reads the format picked in the format list.
pub fn parse_index(s: &str) -> (r: usize)
    ensures
        r == spec_parse_index(s@),
{
    let cs = crate::text::chars_of(s);
    let start: usize = if cs.len() > 0 && cs[0] == '+' { 1 } else { 0 };
    let ghost digits = index_digits(s@);
    assert(digits =~= cs@.skip(start as int));
    if start >= cs.len() {
        return 0;
    }
    let mut v: usize = 0;
    let mut i = start;
    while i < cs.len()
        invariant
            cs@ == s@,
            start <= i <= cs@.len(),
            digits == cs@.skip(start as int),
            digits == index_digits(s@),
            forall|j: int| 0 <= j < i - start ==> crate::text::is_ascii_digit(#[trigger] digits[j]),
            v as nat == digits_value(digits.take(i - start)),
        decreases cs@.len() - i,
    {
        let c = cs[i];
        if !('0' <= c && c <= '9') {
            assert(!crate::text::is_ascii_digit(digits[i - start]));
            assert(!all_digits(digits));
            assert(spec_parse_index(s@) == 0);
            return 0;
        }
        let d = (c as u32 - '0' as u32) as usize;
        assert(digits.take(i + 1 - start).drop_last() =~= digits.take(i - start));
        assert(digits.take(i + 1 - start).last() == c);
        if v > (usize::MAX - d) / 10 {
            proof {
                let vv = v as int;
                let dd = d as int;
                assert(vv * 10 + dd > usize::MAX) by (nonlinear_arith)
                    requires
                        vv > (usize::MAX - dd) / 10,
                        0 <= dd < 10,
                ;
                assert(digits_value(digits.take(i + 1 - start)) == vv * 10 + dd);
                if all_digits(digits) {
                    lemma_digits_value_monotone(digits, i + 1 - start);
                    assert(digits_value(digits) > usize::MAX);
                }
                assert(spec_parse_index(s@) == 0);
            }
            return 0;
        }
        proof {
            let vv = v as int;
            let dd = d as int;
            assert(vv * 10 + dd <= usize::MAX) by (nonlinear_arith)
                requires
                    vv <= (usize::MAX - dd) / 10,
                    0 <= dd < 10,
            ;
        }
        v = v * 10 + d;
        i = i + 1;
    }
    assert(digits.take(i - start) =~= digits);
    v
}

/// A longer digit string never stands for less.
pub proof fn lemma_digits_value_monotone(d: Seq<char>, k: int)
    requires
        0 <= k <= d.len(),
        all_digits(d),
    ensures
        digits_value(d.take(k)) <= digits_value(d),
    decreases d.len() - k,
{
    if k < d.len() {
        lemma_digits_value_monotone(d, k + 1);
        assert(d.take(k + 1).drop_last() =~= d.take(k));
    } else {
        assert(d.take(k) =~= d);
    }
}

/// Comment lines (starting with `#`) and blank lines are never processed:
/// every processed line is non-empty, does not start with `#`, and is the
/// trimmed form of a line of the input.
pub proof fn law_processed_lines(parts: Seq<Seq<char>>)
    ensures
        forall|i: int|
            0 <= i < kept_lines(parts).len() ==> {
                let l = #[trigger] kept_lines(parts)[i];
                &&& l.len() > 0
                &&& l[0] != '#'
                &&& exists|j: int| 0 <= j < parts.len() && l == trim(parts[j])
            },
    decreases parts.len(),
{
    if parts.len() > 0 {
        law_processed_lines(parts.drop_last());
        let prev = kept_lines(parts.drop_last());
        assert forall|i: int| 0 <= i < kept_lines(parts).len() implies {
            let l = #[trigger] kept_lines(parts)[i];
            &&& l.len() > 0
            &&& l[0] != '#'
            &&& exists|j: int| 0 <= j < parts.len() && l == trim(parts[j])
        } by {
            let l = kept_lines(parts)[i];
            if i < prev.len() {
                assert(l == prev[i]);
                let j = choose|j: int| 0 <= j < parts.drop_last().len() && prev[i] == trim(parts.drop_last()[j]);
                assert(parts.drop_last()[j] == parts[j]);
            } else {
                assert(l == trim(parts.last()));
                assert(parts.last() == parts[parts.len() - 1]);
            }
        }
    }
}

/// Lines that are already trimmed, non-empty and no comments are all kept.
proof fn lemma_kept_lines_fixed(lines: Seq<Seq<char>>)
    requires
        forall|i: int|
            0 <= i < lines.len() ==> {
                let l = #[trigger] lines[i];
                &&& trim(l) == l
                &&& l.len() > 0
                &&& l[0] != '#'
            },
    ensures
        kept_lines(lines) == lines,
    decreases lines.len(),
{
    if lines.len() > 0 {
        let d = lines.drop_last();
        assert forall|i: int| 0 <= i < d.len() implies {
            let l = #[trigger] d[i];
            &&& trim(l) == l
            &&& l.len() > 0
            &&& l[0] != '#'
        } by {
            assert(d[i] == lines[i]);
        }
        lemma_kept_lines_fixed(d);
        let l = lines[lines.len() - 1];
        assert(lines.last() == l);
        assert(d.push(l) =~= lines);
    }
}

/// A saved batch restored into the input box (its lines joined by newlines)
/// gives back the same lines to process: running it again processes exactly
/// the lines of the first run.
pub proof fn law_restored_input_same_lines(input: Seq<char>)
    ensures
        spec_input_lines(seq_join(spec_input_lines(input), "\n"@)) == spec_input_lines(input),
{
    let parts = split_on(input, '\n');
    let lines = spec_input_lines(input);
    law_processed_lines(parts);
    lemma_split_pieces(input, '\n');
    assert forall|i: int| 0 <= i < lines.len() implies {
        let l = #[trigger] lines[i];
        &&& trim(l) == l
        &&& l.len() > 0
        &&& l[0] != '#'
        &&& !l.contains('\n')
    } by {
        let l = lines[i];
        let j = choose|j: int| 0 <= j < parts.len() && l == trim(parts[j]);
        lemma_trim_idempotent(parts[j]);
        assert(!parts[j].contains('\n'));
        lemma_trim_keeps_chars(parts[j], '\n');
    }
    reveal_strlit("\n");
    assert("\n"@ =~= seq!['\n']);
    if lines.len() == 0 {
        assert(seq_join(lines, "\n"@) =~= Seq::<char>::empty());
        let e = Seq::<char>::empty();
        assert(split_on(e, '\n') =~= seq![e]);
        assert(seq![e].drop_last() =~= Seq::<Seq<char>>::empty());
        assert(trim(e) =~= e);
        assert(seq![e].last() == e);
        assert(kept_lines(Seq::<Seq<char>>::empty()) =~= Seq::<Seq<char>>::empty());
        assert(kept_lines(seq![e]) =~= Seq::<Seq<char>>::empty());
        assert(lines =~= Seq::<Seq<char>>::empty());
    } else {
        lemma_split_join(lines, '\n');
        lemma_kept_lines_fixed(lines);
    }
}

/// Decimal notation reads back as the number: every character is an ASCII
/// digit, there is no leading zero (but for `0` itself), and the digits
/// stand for `n`.
pub proof fn law_decimal_reads_back(n: nat)
    ensures
        decimal(n).len() > 0,
        all_digits(decimal(n)),
        digits_value(decimal(n)) == n,
        decimal(n)[0] == '0' ==> n == 0,
    decreases n,
{
    let s = decimal(n);
    if n < 10 {
        assert(s =~= seq![crate::formatting::digit_char(n)]);
        assert(s.drop_last() =~= Seq::<char>::empty());
        lemma_digit_char_value(n);
        assert(s.last() == crate::formatting::digit_char(n));
        assert(digits_value(s.drop_last()) == 0);
        assert(digits_value(s) == digits_value(s.drop_last()) * 10 + ((s.last() as u32) - ('0' as u32)) as nat);
    } else {
        let q = n / 10;
        let r = n % 10;
        law_decimal_reads_back(q);
        let p = decimal(q);
        assert(s == p.push(crate::formatting::digit_char(r)));
        assert(s.drop_last() =~= p);
        assert(s.last() == crate::formatting::digit_char(r));
        lemma_digit_char_value(r);
        assert(digits_value(s) == digits_value(p) * 10 + ((s.last() as u32) - ('0' as u32)) as nat);
        assert(digits_value(s) == q * 10 + r);
        assert(s[0] == p[0]);
        assert forall|i: int| 0 <= i < s.len() implies crate::text::is_ascii_digit(#[trigger] s[i]) by {
            if i < p.len() {
                assert(s[i] == p[i]);
                assert(crate::text::is_ascii_digit(p[i]));
            }
        }
        assert(n == q * 10 + r) by (nonlinear_arith)
            requires
                q == n / 10,
                r == n % 10,
        ;
        assert(q > 0) by (nonlinear_arith)
            requires
                q == n / 10,
                n >= 10,
        ;
    }
}

/// A digit character stands for its digit.
proof fn lemma_digit_char_value(d: nat)
    requires
        d < 10,
    ensures
        crate::text::is_ascii_digit(crate::formatting::digit_char(d)),
        ((crate::formatting::digit_char(d) as u32) - ('0' as u32)) as nat == d,
{
}

} // verus!
