use vstd::prelude::*;
use vstd::string::*;
use crate::error::BenchError;
use crate::text::{
    trimmed, trim, ltrim_c, rtrim_c, trim_end_char, trim_both_char, str_eq, last_colon_space,
    find_last_colon_space, first_at, find_char,
};
use crate::numbers::{
    Decimal, spec_parse_dec, parse_decimal, spec_parse_i64, parse_value, spec_parse_i32,
    parse_value_i32,
};
use crate::duration::{spec_parse_duration, parse_duration};

verus! {

/// The mathematical content of a decoded report: the command as written
/// and each metric as an exact number.
pub ghost struct TimeView {
    pub command: Seq<char>,
    pub user_time: Decimal,
    pub system_time: Decimal,
    pub percent_of_cpu: int,
    pub elapsed_time: Decimal,
    pub max_resident_set_size_kb: int,
    pub major_page_faults: int,
    pub minor_page_faults: int,
    pub voluntary_context_switches: int,
    pub involuntary_context_switches: int,
    pub file_system_outputs: int,
    pub exit_status: int,
}

/// One decoded instrumentation report: the metrics of a single job run.
///
/// Times are kept as exact decimals, counts as integers; every field
/// defaults to zero (or empty) when its report line is absent.
#[derive(Debug)]
pub struct TimeResult {
    pub command: String,
    pub user_time: Decimal,
    pub system_time: Decimal,
    pub percent_of_cpu: i32,
    pub elapsed_time: Decimal,
    pub max_resident_set_size_kb: i64,
    pub major_page_faults: i64,
    pub minor_page_faults: i64,
    pub voluntary_context_switches: i64,
    pub involuntary_context_switches: i64,
    pub file_system_outputs: i64,
    pub exit_status: i32,
}

impl View for TimeResult {
    type V = TimeView;

    open spec fn view(&self) -> TimeView {
        TimeView {
            command: self.command@,
            user_time: self.user_time,
            system_time: self.system_time,
            percent_of_cpu: self.percent_of_cpu as int,
            elapsed_time: self.elapsed_time,
            max_resident_set_size_kb: self.max_resident_set_size_kb as int,
            major_page_faults: self.major_page_faults as int,
            minor_page_faults: self.minor_page_faults as int,
            voluntary_context_switches: self.voluntary_context_switches as int,
            involuntary_context_switches: self.involuntary_context_switches as int,
            file_system_outputs: self.file_system_outputs as int,
            exit_status: self.exit_status as int,
        }
    }
}

/// The state every decode starts from: all metrics zero.
pub open spec fn init_view() -> TimeView {
    TimeView {
        command: Seq::<char>::empty(),
        user_time: Decimal { whole: 0u64, frac_num: 0u64, frac_den: 1u64 },
        system_time: Decimal { whole: 0u64, frac_num: 0u64, frac_den: 1u64 },
        percent_of_cpu: 0,
        elapsed_time: Decimal { whole: 0u64, frac_num: 0u64, frac_den: 1u64 },
        max_resident_set_size_kb: 0,
        major_page_faults: 0,
        minor_page_faults: 0,
        voluntary_context_switches: 0,
        involuntary_context_switches: 0,
        file_system_outputs: 0,
        exit_status: 0,
    }
}

impl TimeResult {
    /// The decimal metric fields are well-formed fractions.
    pub open spec fn wf(self) -> bool {
        self.user_time.wf() && self.system_time.wf() && self.elapsed_time.wf()
    }

    /// A result with every metric zero, as a report is decoded into
    /// before any line is read.
    pub fn new() -> (r: TimeResult)
        ensures
            r@ == init_view(),
            r.wf(),
    {
        let r = TimeResult {
            command: String::new(),
            user_time: Decimal::zero(),
            system_time: Decimal::zero(),
            percent_of_cpu: 0,
            elapsed_time: Decimal::zero(),
            max_resident_set_size_kb: 0,
            major_page_faults: 0,
            minor_page_faults: 0,
            voluntary_context_switches: 0,
            involuntary_context_switches: 0,
            file_system_outputs: 0,
            exit_status: 0,
        };
        proof {
            assert(r@.command =~= init_view().command);
        }
        r
    }
}

impl Default for TimeResult {
    fn default() -> (r: TimeResult)
        ensures
            r@ == init_view(),
            r.wf(),
    {
        TimeResult::new()
    }
}

/// A label the decoder knows; any other label is ignored.
pub open spec fn recognized(key: Seq<char>) -> bool {
    ||| key == "Command being timed"@
    ||| key == "User time (seconds)"@
    ||| key == "System time (seconds)"@
    ||| key == "Percent of CPU this job got"@
    ||| key == "Elapsed (wall clock) time (h:mm:ss or m:ss)"@
    ||| key == "Maximum resident set size (kbytes)"@
    ||| key == "Major (requiring I/O) page faults"@
    ||| key == "Minor (reclaiming a frame) page faults"@
    ||| key == "Voluntary context switches"@
    ||| key == "Involuntary context switches"@
    ||| key == "File system outputs"@
    ||| key == "Exit status"@
}

/// What one recognized label-value pair does to the decoded state; `None`
/// is a fatal decode error, an unrecognized label leaves the state alone.
pub open spec fn spec_update(t: TimeView, key: Seq<char>, value: Seq<char>) -> Option<TimeView> {
    if key == "Command being timed"@ {
        Some(TimeView { command: rtrim_c(ltrim_c(value, '"'), '"'), ..t })
    } else if key == "User time (seconds)"@ {
        match spec_parse_dec(value) {
            Some(d) => Some(TimeView { user_time: d, ..t }),
            None => None,
        }
    } else if key == "System time (seconds)"@ {
        match spec_parse_dec(value) {
            Some(d) => Some(TimeView { system_time: d, ..t }),
            None => None,
        }
    } else if key == "Percent of CPU this job got"@ {
        match spec_parse_i32(rtrim_c(value, '%')) {
            Some(p) => Some(TimeView { percent_of_cpu: p as int, ..t }),
            None => None,
        }
    } else if key == "Elapsed (wall clock) time (h:mm:ss or m:ss)"@ {
        match spec_parse_duration(value) {
            Some(d) => Some(TimeView { elapsed_time: d, ..t }),
            None => None,
        }
    } else if key == "Maximum resident set size (kbytes)"@ {
        match spec_parse_i64(value) {
            Some(v) => Some(TimeView { max_resident_set_size_kb: v as int, ..t }),
            None => None,
        }
    } else if key == "Major (requiring I/O) page faults"@ {
        match spec_parse_i64(value) {
            Some(v) => Some(TimeView { major_page_faults: v as int, ..t }),
            None => None,
        }
    } else if key == "Minor (reclaiming a frame) page faults"@ {
        match spec_parse_i64(value) {
            Some(v) => Some(TimeView { minor_page_faults: v as int, ..t }),
            None => None,
        }
    } else if key == "Voluntary context switches"@ {
        match spec_parse_i64(value) {
            Some(v) => Some(TimeView { voluntary_context_switches: v as int, ..t }),
            None => None,
        }
    } else if key == "Involuntary context switches"@ {
        match spec_parse_i64(value) {
            Some(v) => Some(TimeView { involuntary_context_switches: v as int, ..t }),
            None => None,
        }
    } else if key == "File system outputs"@ {
        match spec_parse_i64(value) {
            Some(v) => Some(TimeView { file_system_outputs: v as int, ..t }),
            None => None,
        }
    } else if key == "Exit status"@ {
        match spec_parse_i32(value) {
            Some(v) => Some(TimeView { exit_status: v as int, ..t }),
            None => None,
        }
    } else {
        Some(t)
    }
}

/// What one raw report line does to the decoded state: lines without a
/// `": "` label-value shape are ignored.
pub open spec fn spec_parse_line(t: TimeView, line: Seq<char>) -> Option<TimeView> {
    match last_colon_space(line) {
        None => Some(t),
        Some(i) => spec_update(t, trimmed(line.take(i)), trimmed(line.skip(i + 2))),
    }
}

#[via_fn]
proof fn spec_lines_dec(s: Seq<char>) {
    crate::text::lemma_first_at(s, '\n');
}

/// A text split at newlines, the separators dropped.
pub open spec fn spec_lines(s: Seq<char>) -> Seq<Seq<char>>
    decreases s.len(),
    via spec_lines_dec
{
    match first_at(s, '\n') {
        None => seq![s],
        Some(i) => seq![s.take(i)] + spec_lines(s.skip(i + 1)),
    }
}

/// Fold the line interpreter over a report's lines.
pub open spec fn spec_decode_lines(t: TimeView, lines: Seq<Seq<char>>) -> Option<TimeView>
    decreases lines.len(),
{
    if lines.len() == 0 {
        Some(t)
    } else {
        match spec_parse_line(t, lines[0]) {
            None => None,
            Some(t2) => spec_decode_lines(t2, lines.skip(1)),
        }
    }
}

/// The result a whole report text decodes to, if it is readable.
pub open spec fn spec_decode(s: Seq<char>) -> Option<TimeView> {
    spec_decode_lines(init_view(), spec_lines(s))
}

fn decode_error(value: &str) -> (e: BenchError)
    ensures
        e is Decode,
{
    BenchError::Decode(String::from_str("unreadable report value: ").concat(value))
}

impl TimeResult {
    /// Set the one field `key` names from `value`; a parse failure on a
    /// recognized label is fatal, an unrecognized label is ignored.
    pub fn update_field(&mut self, key: &str, value: &str) -> (r: Result<(), BenchError>)
        requires
            old(self).wf(),
        ensures
            final(self).wf(),
            match r {
                Ok(()) => spec_update(old(self)@, key@, value@) == Some(final(self)@),
                Err(e) => spec_update(old(self)@, key@, value@) is None && e is Decode,
            },
    {
        if str_eq(key, "Command being timed") {
            self.command = String::from_str(trim_both_char(value, '"'));
            Ok(())
        } else if str_eq(key, "User time (seconds)") {
            match parse_decimal(value) {
                Some(d) => {
                    self.user_time = d;
                    Ok(())
                },
                None => Err(decode_error(value)),
            }
        } else if str_eq(key, "System time (seconds)") {
            match parse_decimal(value) {
                Some(d) => {
                    self.system_time = d;
                    Ok(())
                },
                None => Err(decode_error(value)),
            }
        } else if str_eq(key, "Percent of CPU this job got") {
            match parse_value_i32(trim_end_char(value, '%')) {
                Some(p) => {
                    self.percent_of_cpu = p;
                    Ok(())
                },
                None => Err(decode_error(value)),
            }
        } else if str_eq(key, "Elapsed (wall clock) time (h:mm:ss or m:ss)") {
            match parse_duration(value) {
                Some(d) => {
                    self.elapsed_time = d;
                    Ok(())
                },
                None => Err(decode_error(value)),
            }
        } else if str_eq(key, "Maximum resident set size (kbytes)") {
            match parse_value(value) {
                Some(v) => {
                    self.max_resident_set_size_kb = v;
                    Ok(())
                },
                None => Err(decode_error(value)),
            }
        } else if str_eq(key, "Major (requiring I/O) page faults") {
            match parse_value(value) {
                Some(v) => {
                    self.major_page_faults = v;
                    Ok(())
                },
                None => Err(decode_error(value)),
            }
        } else if str_eq(key, "Minor (reclaiming a frame) page faults") {
            match parse_value(value) {
                Some(v) => {
                    self.minor_page_faults = v;
                    Ok(())
                },
                None => Err(decode_error(value)),
            }
        } else if str_eq(key, "Voluntary context switches") {
            match parse_value(value) {
                Some(v) => {
                    self.voluntary_context_switches = v;
                    Ok(())
                },
                None => Err(decode_error(value)),
            }
        } else if str_eq(key, "Involuntary context switches") {
            match parse_value(value) {
                Some(v) => {
                    self.involuntary_context_switches = v;
                    Ok(())
                },
                None => Err(decode_error(value)),
            }
        } else if str_eq(key, "File system outputs") {
            match parse_value(value) {
                Some(v) => {
                    self.file_system_outputs = v;
                    Ok(())
                },
                None => Err(decode_error(value)),
            }
        } else if str_eq(key, "Exit status") {
            match parse_value_i32(value) {
                Some(v) => {
                    self.exit_status = v;
                    Ok(())
                },
                None => Err(decode_error(value)),
            }
        } else {
            Ok(())
        }
    }

    /// Interpret one report line: split at the last `": "`, trim both
    /// sides, and apply the label.
    pub fn parse_line(&mut self, line: &str) -> (r: Result<(), BenchError>)
        requires
            old(self).wf(),
        ensures
            final(self).wf(),
            match r {
                Ok(()) => spec_parse_line(old(self)@, line@) == Some(final(self)@),
                Err(e) => spec_parse_line(old(self)@, line@) is None && e is Decode,
            },
    {
        let n = line.unicode_len();
        match find_last_colon_space(line) {
            None => Ok(()),
            Some(i) => {
                let raw_key = line.substring_char(0, i);
                let raw_value = line.substring_char(i + 2, n);
                proof {
                    assert(raw_key@ =~= line@.take(i as int));
                    assert(raw_value@ =~= line@.skip(i + 2));
                }
                let key = trim(raw_key);
                let value = trim(raw_value);
                self.update_field(key, value)
            },
        }
    }

    /// Decode a whole report text, line by line.
    ///
    /// Succeeds exactly when every recognized label's value parses; the
    /// result then carries the last written value of every field, zero
    /// where a report line is absent.
    pub fn decode(text: &str) -> (r: Result<TimeResult, BenchError>)
        ensures
            match r {
                Ok(t) => spec_decode(text@) == Some(t@) && t.wf(),
                Err(e) => spec_decode(text@) is None && e is Decode,
            },
    {
        let n = text.unicode_len();
        let mut t = TimeResult::new();
        let mut pos: usize = 0;
        proof {
            assert(text@.skip(0) =~= text@);
        }
        loop
            invariant
                n == text@.len(),
                0 <= pos <= n,
                t.wf(),
                spec_decode(text@) == spec_decode_lines(t@, spec_lines(text@.skip(pos as int))),
            decreases n - pos,
        {
            let rest = text.substring_char(pos, n);
            proof {
                assert(rest@ =~= text@.skip(pos as int));
            }
            match find_char(rest, '\n') {
                Some(k) => {
                    let line = rest.substring_char(0, k);
                    proof {
                        assert(line@ =~= rest@.take(k as int));
                        let lines = spec_lines(rest@);
                        assert(lines[0] == line@);
                        assert(lines.skip(1) =~= spec_lines(rest@.skip(k + 1)));
                    }
                    match t.parse_line(line) {
                        Ok(()) => {},
                        Err(e) => {
                            return Err(e);
                        },
                    }
                    pos = pos + k + 1;
                    proof {
                        assert(text@.skip(pos as int) =~= rest@.skip(k + 1));
                    }
                },
                None => {
                    proof {
                        let lines = spec_lines(rest@);
                        assert(lines[0] == rest@);
                        assert(lines.skip(1) =~= Seq::<Seq<char>>::empty());
                    }
                    let ghost t0 = t@;
                    match t.parse_line(rest) {
                        Ok(()) => {},
                        Err(e) => {
                            return Err(e);
                        },
                    }
                    proof {
                        let lines = spec_lines(rest@);
                        assert(spec_parse_line(t0, lines[0]) == Some(t@));
                        assert(spec_decode_lines(t0, lines) == spec_decode_lines(
                            t@,
                            lines.skip(1),
                        ));
                        assert(spec_decode_lines(t@, Seq::<Seq<char>>::empty()) == Some(t@));
                    }
                    return Ok(t);
                },
            }
        }
    }
}

/// Whether one line can never make decoding fail: it either has no
/// label-value shape, or its label is unrecognized, or its value parses.
pub open spec fn line_ok(line: Seq<char>) -> bool {
    match last_colon_space(line) {
        None => true,
        Some(i) => spec_update(init_view(), trimmed(line.take(i)), trimmed(line.skip(i + 2)))
            is Some,
    }
}

proof fn lemma_update_ok_any_state(a: TimeView, b: TimeView, key: Seq<char>, value: Seq<char>)
    ensures
        (spec_update(a, key, value) is Some) == (spec_update(b, key, value) is Some),
{
}

/// Decoding is total on clean reports: when every line is either
/// ignorable or a recognized label with a valid value, the decode
/// succeeds.
pub proof fn lemma_decode_lines_total(t: TimeView, lines: Seq<Seq<char>>)
    requires
        forall|i: int| 0 <= i < lines.len() ==> line_ok(#[trigger] lines[i]),
    ensures
        spec_decode_lines(t, lines) is Some,
    decreases lines.len(),
{
    if lines.len() > 0 {
        assert(line_ok(lines[0]));
        let line = lines[0];
        match last_colon_space(line) {
            None => {},
            Some(i) => {
                lemma_update_ok_any_state(
                    init_view(),
                    t,
                    trimmed(line.take(i)),
                    trimmed(line.skip(i + 2)),
                );
            },
        }
        let t2 = spec_parse_line(t, line)->Some_0;
        assert(forall|i: int|
            0 <= i < lines.skip(1).len() ==> line_ok(#[trigger] lines.skip(1)[i]));
        lemma_decode_lines_total(t2, lines.skip(1));
    }
}

/// Decoding a report whose lines all carry recognized labels with valid
/// values (or no label at all) never fails.
pub proof fn lemma_decode_total(s: Seq<char>)
    requires
        forall|i: int| 0 <= i < spec_lines(s).len() ==> line_ok(#[trigger] spec_lines(s)[i]),
    ensures
        spec_decode(s) is Some,
{
    lemma_decode_lines_total(init_view(), spec_lines(s));
}

/// A line without the label-value shape, or with an unrecognized label,
/// leaves the decoded state exactly as it was.
pub proof fn lemma_unrecognized_ignored(t: TimeView, line: Seq<char>)
    requires
        match last_colon_space(line) {
            None => true,
            Some(i) => !recognized(trimmed(line.take(i))),
        },
    ensures
        spec_parse_line(t, line) == Some(t),
{
}

} // verus!
