//! Preparing code for the Rust playground and shaping what it answers.

use vstd::prelude::*;
use vstd::string::StrSliceExecFns;
use crate::text::{
    chars_of, string_of_range, ends_with, is_byte_truncation, truncatable_at, truncate_bytes, same_chars, contains, find_in, find, find_char_in, lemma_find_from_found, lemma_rfind_upto_found, rfind, rfind_char_in,
    rfind_in, trim_leading_newlines, join_lines, line_ranges, lines, push_char, push_range, push_str, starts_with,
    starts_with_in, trim, trim_bounds, newline_count, newline_free, lemma_lines_newline_free,
    lemma_join_lines_newline_count, lemma_contains_rfind, lemma_trim_leading_newlines_suffix,
};

verus! {

/// A line that belongs to the head of a snippet: a crate attribute or blank.
pub open spec fn is_head_line(line: Seq<char>) -> bool {
    starts_with(trim(line), "#!["@) || trim(line).len() == 0
}

/// The crate attributes (trimmed, one per line) at the head of `ls`.
pub open spec fn head_attributes(ls: Seq<Seq<char>>) -> Seq<char>
    decreases ls.len(),
{
    if ls.len() == 0 || !is_head_line(ls[0]) {
        seq![]
    } else if starts_with(trim(ls[0]), "#!["@) {
        trim(ls[0]) + seq!['\n'] + head_attributes(ls.drop_first())
    } else {
        head_attributes(ls.drop_first())
    }
}

/// The lines of `ls` after its head of crate attributes and blank lines.
pub open spec fn body_lines(ls: Seq<Seq<char>>) -> Seq<Seq<char>>
    decreases ls.len(),
{
    if ls.len() == 0 || !is_head_line(ls[0]) {
        ls
    } else {
        body_lines(ls.drop_first())
    }
}

/// `code` with its leading crate attributes moved in front of
/// `after_crate_attrs`, its remaining lines after it, then `after_code`.
pub open spec fn spec_hoise(code: Seq<char>, after_crate_attrs: Seq<char>, after_code: Seq<char>) -> Seq<char> {
    head_attributes(lines(code)) + after_crate_attrs + join_lines(body_lines(lines(code)))
        + after_code
}

/// Puts the crate attributes at the start of `code` first, then
/// `after_crate_attrs`, then the rest of the lines of `code` (each ending in
/// a newline), then `after_code`.
pub fn hoise_crate_attributes(code: &str, after_crate_attrs: &str, after_code: &str) -> (res: String)
    ensures
        res@ == spec_hoise(code@, after_crate_attrs@, after_code@),
{
    let cs = chars_of(code);
    let ranges = line_ranges(&cs, 0, cs.len());
    let ghost ls = lines(cs@.subrange(0, cs@.len() as int));
    proof {
        assert(cs@.subrange(0, cs@.len() as int) =~= cs@);
    }
    let attr_prefix = chars_of("#![");
    let mut output = String::new();
    let mut k: usize = 0;
    assert(ls.skip(0) =~= ls);
    assert(output@ + head_attributes(ls) =~= head_attributes(ls));
    while k < ranges.len()
        invariant
            ls == lines(cs@),
            cs@ == code@,
            attr_prefix@ == "#!["@,
            ranges@.len() == ls.len(),
            forall|j: int|
                0 <= j < ranges@.len() ==> 0 <= #[trigger] ranges@[j].0 <= ranges@[j].1 <= cs@.len()
                    && cs@.subrange(ranges@[j].0 as int, ranges@[j].1 as int) == ls[j],
            0 <= k <= ranges@.len(),
            head_attributes(ls) == output@ + head_attributes(ls.skip(k as int)),
            body_lines(ls) == body_lines(ls.skip(k as int)),
        ensures
            k == ranges@.len() || !is_head_line(ls[k as int]),
        decreases ranges@.len() - k,
    {
        let (s, e) = ranges[k];
        let (a, b) = trim_bounds(&cs, s, e);
        assert(ls.skip(k as int).drop_first() =~= ls.skip(k + 1));
        assert(ls.skip(k as int)[0] == ls[k as int]);
        if starts_with_in(&cs, a, b, &attr_prefix) {
            let ghost before = output@;
            push_range(&mut output, &cs, a, b);
            push_char(&mut output, '\n');
            assert(output@ == before + (trim(ls[k as int]) + seq!['\n']));
        } else if a == b {
            assert(trim(ls[k as int]).len() == 0);
        } else {
            break;
        }
        k = k + 1;
    }
    proof {
        if k == ranges@.len() {
            assert(ls.skip(k as int) =~= Seq::<Seq<char>>::empty());
        } else {
            assert(ls.skip(k as int)[0] == ls[k as int]);
        }
        assert(output@ =~= output@ + head_attributes(ls.skip(k as int)));
    }
    let ghost head = output@;
    push_str(&mut output, after_crate_attrs);
    let ghost k0 = k;
    while k < ranges.len()
        invariant
            ls == lines(cs@),
            ranges@.len() == ls.len(),
            forall|j: int|
                0 <= j < ranges@.len() ==> 0 <= #[trigger] ranges@[j].0 <= ranges@[j].1 <= cs@.len()
                    && cs@.subrange(ranges@[j].0 as int, ranges@[j].1 as int) == ls[j],
            k0 <= k <= ranges@.len(),
            output@ + join_lines(ls.skip(k as int)) == head + after_crate_attrs@ + join_lines(
                ls.skip(k0 as int),
            ),
        decreases ranges@.len() - k,
    {
        let (s, e) = ranges[k];
        assert(ls.skip(k as int).drop_first() =~= ls.skip(k + 1));
        assert(ls.skip(k as int)[0] == ls[k as int]);
        let ghost before = output@;
        push_range(&mut output, &cs, s, e);
        push_char(&mut output, '\n');
        assert(output@ == before + (ls[k as int] + seq!['\n']));
        k = k + 1;
    }
    assert(ls.skip(k as int) =~= Seq::<Seq<char>>::empty());
    push_str(&mut output, after_code);
    output
}


/// The views of a list of string slices.
pub open spec fn views(ts: Seq<&str>) -> Seq<Seq<char>> {
    ts.map_values(|t: &str| t@)
}

/// The greatest position at which one of `tokens` last occurs in `s`.
pub open spec fn max_rfind(s: Seq<char>, tokens: Seq<Seq<char>>) -> Option<int>
    decreases tokens.len(),
{
    if tokens.len() == 0 {
        None
    } else {
        match (max_rfind(s, tokens.drop_last()), rfind(s, tokens.last())) {
            (None, r) => r,
            (Some(a), None) => Some(a),
            (Some(a), Some(b)) => Some(if a >= b { a } else { b }),
        }
    }
}

/// The least position at which one of `tokens` last occurs in `s`.
pub open spec fn min_rfind(s: Seq<char>, tokens: Seq<Seq<char>>) -> Option<int>
    decreases tokens.len(),
{
    if tokens.len() == 0 {
        None
    } else {
        match (min_rfind(s, tokens.drop_last()), rfind(s, tokens.last())) {
            (None, r) => r,
            (Some(a), None) => Some(a),
            (Some(a), Some(b)) => Some(if a <= b { a } else { b }),
        }
    }
}

/// `s` from the line after the last start token on (empty if that token
/// stands on the last line); `s` itself when no start token occurs.
pub open spec fn cut_after_start(s: Seq<char>, starts: Seq<Seq<char>>) -> Seq<char> {
    match max_rfind(s, starts) {
        None => s,
        Some(p) => match find(s.skip(p), seq!['\n']) {
            Some(le) => s.skip(p + le + 1),
            None => seq![],
        },
    }
}

/// `s` up to and including the line ending before the earliest end token
/// (empty if that token stands on the first line); `s` itself when no end
/// token occurs.
pub open spec fn cut_before_end(s: Seq<char>, ends: Seq<Seq<char>>) -> Seq<char> {
    match min_rfind(s, ends) {
        None => s,
        Some(e) => match rfind(s.take(e), seq!['\n']) {
            Some(q) => s.take(q + 1),
            None => seq![],
        },
    }
}

/// `s` with every newline that follows another newline at its end removed.
pub open spec fn drop_trailing_blank_lines(s: Seq<char>) -> Seq<char>
    decreases s.len(),
{
    if s.len() >= 2 && s[s.len() - 1] == '\n' && s[s.len() - 2] == '\n' {
        drop_trailing_blank_lines(s.drop_last())
    } else {
        s
    }
}

/// What `extract_relevant_lines` keeps of `s`.
pub open spec fn spec_extract_relevant_lines(
    s: Seq<char>,
    starts: Seq<Seq<char>>,
    ends: Seq<Seq<char>>,
) -> Seq<char> {
    drop_trailing_blank_lines(trim_leading_newlines(cut_before_end(cut_after_start(s, starts), ends)))
}

/// Strips `stderr` down to the lines between the last start token and the
/// earliest end token (each searched by its last occurrence), then removes
/// leading newlines and repeated trailing newlines.
pub fn extract_relevant_lines<'a>(
    stderr: &'a str,
    strip_start_tokens: &[&str],
    strip_end_tokens: &[&str],
) -> (res: &'a str)
    ensures
        res@ == spec_extract_relevant_lines(
            stderr@,
            views(strip_start_tokens@),
            views(strip_end_tokens@),
        ),
{
    let cs = chars_of(stderr);
    let ghost starts = views(strip_start_tokens@);
    let ghost ends = views(strip_end_tokens@);
    let mut lo: usize = 0;
    let mut hi: usize = cs.len();
    assert(cs@.subrange(0, cs@.len() as int) =~= cs@);

    // Find the best matching start token.
    let mut best: Option<usize> = None;
    let mut i: usize = 0;
    while i < strip_start_tokens.len()
        invariant
            hi == cs@.len(),
            cs@.subrange(0, hi as int) == cs@,
            0 <= i <= strip_start_tokens@.len(),
            starts == views(strip_start_tokens@),
            match best {
                Some(b) => max_rfind(cs@, starts.take(i as int)) == Some(b as int),
                None => max_rfind(cs@, starts.take(i as int)) is None,
            },
        decreases strip_start_tokens@.len() - i,
    {
        let t = chars_of(strip_start_tokens[i]);
        let r = rfind_in(&cs, 0, hi, &t);
        assert(starts.take(i + 1).drop_last() =~= starts.take(i as int));
        assert(starts.take(i + 1).last() == t@);
        best = match (best, r) {
            (None, r) => r,
            (Some(a), None) => Some(a),
            (Some(a), Some(b)) => Some(if a >= b { a } else { b }),
        };
        i = i + 1;
    }
    assert(starts.take(i as int) =~= starts);
    if let Some(p) = best {
        proof {
            lemma_max_rfind_bound(cs@, starts);
        }
        match find_char_in(&cs, p, hi, '\n') {
            Some(le) => {
                proof {
                    lemma_find_from_found(cs@.subrange(p as int, hi as int), seq!['\n'], 0);
                    assert(cs@.skip(p as int) =~= cs@.subrange(p as int, hi as int));
                    assert(cs@.skip(p + le + 1) =~= cs@.subrange(p + le + 1, hi as int));
                }
                lo = p + le + 1;
            },
            None => {
                assert(cs@.skip(p as int) =~= cs@.subrange(p as int, hi as int));
                lo = hi;
            },
        }
    }
    let ghost w1 = cut_after_start(cs@, starts);
    assert(w1 =~= cs@.subrange(lo as int, hi as int));

    // Find the best matching end token.
    let mut best_end: Option<usize> = None;
    let mut i: usize = 0;
    while i < strip_end_tokens.len()
        invariant
            lo <= hi <= cs@.len(),
            w1 == cs@.subrange(lo as int, hi as int),
            0 <= i <= strip_end_tokens@.len(),
            ends == views(strip_end_tokens@),
            match best_end {
                Some(b) => min_rfind(w1, ends.take(i as int)) == Some(b as int),
                None => min_rfind(w1, ends.take(i as int)) is None,
            },
        decreases strip_end_tokens@.len() - i,
    {
        let t = chars_of(strip_end_tokens[i]);
        let r = rfind_in(&cs, lo, hi, &t);
        assert(ends.take(i + 1).drop_last() =~= ends.take(i as int));
        assert(ends.take(i + 1).last() == t@);
        best_end = match (best_end, r) {
            (None, r) => r,
            (Some(a), None) => Some(a),
            (Some(a), Some(b)) => Some(if a <= b { a } else { b }),
        };
        i = i + 1;
    }
    assert(ends.take(i as int) =~= ends);
    if let Some(e) = best_end {
        proof {
            lemma_min_rfind_bound(w1, ends);
        }
        assert(w1.take(e as int) =~= cs@.subrange(lo as int, lo + e));
        match rfind_char_in(&cs, lo, lo + e, '\n') {
            Some(q) => {
                proof {
                    lemma_rfind_upto_found(w1.take(e as int), seq!['\n'], e - 1);
                    assert(w1.take(q + 1) =~= cs@.subrange(lo as int, lo + q + 1));
                }
                hi = lo + q + 1;
            },
            None => {
                hi = lo;
            },
        }
    }
    let ghost w2 = cut_before_end(w1, ends);
    assert(w2 =~= cs@.subrange(lo as int, hi as int));

    // Strip leading newlines.
    while lo < hi && cs[lo] == '\n'
        invariant
            lo <= hi <= cs@.len(),
            trim_leading_newlines(w2) == trim_leading_newlines(cs@.subrange(lo as int, hi as int)),
        decreases hi - lo,
    {
        assert(cs@.subrange(lo as int, hi as int).drop_first() =~= cs@.subrange(lo + 1, hi as int));
        lo = lo + 1;
    }
    let ghost w3 = trim_leading_newlines(w2);
    assert(w3 == cs@.subrange(lo as int, hi as int));

    // Strip repeated trailing newlines.
    while hi - lo >= 2 && cs[hi - 1] == '\n' && cs[hi - 2] == '\n'
        invariant
            lo <= hi <= cs@.len(),
            drop_trailing_blank_lines(w3) == drop_trailing_blank_lines(
                cs@.subrange(lo as int, hi as int),
            ),
        decreases hi - lo,
    {
        assert(cs@.subrange(lo as int, hi as int).drop_last() =~= cs@.subrange(lo as int, hi - 1));
        hi = hi - 1;
    }
    assert(cs@ == stderr@);
    stderr.substring_char(lo, hi)
}

/// Lemma: a position found by `max_rfind` leaves room for its token.
pub proof fn lemma_max_rfind_bound(s: Seq<char>, tokens: Seq<Seq<char>>)
    ensures
        max_rfind(s, tokens) matches Some(p) ==> 0 <= p <= s.len(),
    decreases tokens.len(),
{
    if tokens.len() > 0 {
        lemma_max_rfind_bound(s, tokens.drop_last());
        let n = tokens.last();
        if rfind(s, n) is Some {
            lemma_rfind_upto_found(s, n, s.len() - n.len());
        }
    }
}

/// Lemma: a position found by `min_rfind` leaves room for its token.
pub proof fn lemma_min_rfind_bound(s: Seq<char>, tokens: Seq<Seq<char>>)
    ensures
        min_rfind(s, tokens) matches Some(p) ==> 0 <= p <= s.len(),
    decreases tokens.len(),
{
    if tokens.len() > 0 {
        lemma_min_rfind_bound(s, tokens.drop_last());
        let n = tokens.last();
        if rfind(s, n) is Some {
            lemma_rfind_upto_found(s, n, s.len() - n.len());
        }
    }
}


/// `line` without one leading four-space indent.
pub open spec fn unindent(line: Seq<char>) -> Seq<char> {
    if starts_with(line, "    "@) {
        line.skip("    "@.len() as int)
    } else {
        line
    }
}

/// What lies between the first `fn main() {` and the last `}` of `text`, or
/// `text` itself when one of them is missing or they overlap.
pub open spec fn main_body(text: Seq<char>) -> Seq<char> {
    match (find(text, "fn main() {"@), rfind(text, "}"@)) {
        (Some(p), Some(q)) => if p + "fn main() {"@.len() <= q {
            text.subrange(p + "fn main() {"@.len(), q)
        } else {
            text
        },
        _ => text,
    }
}

/// What `strip_fn_main_boilerplate_from_formatted` makes of `text`.
pub open spec fn spec_strip_fn_main(text: Seq<char>) -> Seq<char> {
    join_lines(lines(trim(main_body(text))).map_values(|l: Seq<char>| unindent(l)))
}

/// Removes the `fn main() { ... }` around formatted code and its indent.
/// Text without that boilerplate is trimmed and re-indented only.
pub fn strip_fn_main_boilerplate_from_formatted(text: &str) -> (res: String)
    ensures
        res@ == spec_strip_fn_main(text@),
{
    let cs = chars_of(text);
    let prefix = chars_of("fn main() {");
    let postfix = chars_of("}");
    let indent = chars_of("    ");
    let len = cs.len();
    assert(cs@.subrange(0, len as int) =~= cs@);
    let (lo, hi) = match (find_in(&cs, 0, len, &prefix), rfind_in(&cs, 0, len, &postfix)) {
        (Some(p), Some(q)) => {
            proof {
                lemma_find_from_found(cs@, prefix@, 0);
                lemma_rfind_upto_found(cs@, postfix@, cs@.len() - postfix@.len());
            }
            if p <= q && prefix.len() <= q - p {
                (p + prefix.len(), q)
            } else {
                (0, len)
            }
        },
        _ => (0, len),
    };
    assert(main_body(cs@) =~= cs@.subrange(lo as int, hi as int));
    let (a, b) = trim_bounds(&cs, lo, hi);
    let ranges = line_ranges(&cs, a, b);
    let ghost ls = lines(cs@.subrange(a as int, b as int));
    let ghost target = ls.map_values(|l: Seq<char>| unindent(l));
    let mut output = String::new();
    let mut k: usize = 0;
    assert(target.skip(0) =~= target);
    while k < ranges.len()
        invariant
            ls == lines(cs@.subrange(a as int, b as int)),
            target == ls.map_values(|l: Seq<char>| unindent(l)),
            indent@ == "    "@,
            ranges@.len() == ls.len(),
            forall|j: int|
                0 <= j < ranges@.len() ==> 0 <= #[trigger] ranges@[j].0 <= ranges@[j].1 <= cs@.len()
                    && cs@.subrange(ranges@[j].0 as int, ranges@[j].1 as int) == ls[j],
            0 <= k <= ranges@.len(),
            output@ + join_lines(target.skip(k as int)) == join_lines(target),
        decreases ranges@.len() - k,
    {
        let (s, e) = ranges[k];
        assert(target.skip(k as int).drop_first() =~= target.skip(k + 1));
        assert(target.skip(k as int)[0] == unindent(ls[k as int]));
        let ghost before = output@;
        if starts_with_in(&cs, s, e, &indent) {
            assert(cs@.subrange(s as int, e as int).skip(indent@.len() as int) =~= cs@.subrange(
                s + indent@.len(),
                e as int,
            ));
            push_range(&mut output, &cs, s + indent.len(), e);
        } else {
            push_range(&mut output, &cs, s, e);
        }
        push_char(&mut output, '\n');
        assert(output@ == before + (unindent(ls[k as int]) + seq!['\n']));
        k = k + 1;
    }
    assert(target.skip(k as int) =~= Seq::<Seq<char>>::empty());
    assert(output@ =~= output@ + join_lines(target.skip(k as int)));
    output
}

/// What `format_play_eval_stderr` makes of `stderr`.
pub open spec fn spec_format_play_eval_stderr(stderr: Seq<char>, show_compiler_warnings: bool) -> Seq<char> {
    let compiler_output = spec_extract_relevant_lines(
        stderr,
        seq!["Compiling playground"@],
        seq![
            "warning emitted"@,
            "warnings emitted"@,
            "warning: `playground` (bin \"playground\") generated"@,
            "warning: `playground` (lib) generated"@,
            "error: could not compile"@,
            "error: aborting"@,
            "Finished "@,
        ],
    );
    if contains(stderr, "Finished "@) {
        let program_stderr = spec_extract_relevant_lines(
            stderr,
            seq!["Finished "@, "Running `target"@],
            seq![],
        );
        if show_compiler_warnings {
            if compiler_output.len() == 0 {
                program_stderr
            } else if program_stderr.len() == 0 {
                compiler_output
            } else {
                compiler_output + seq!['\n'] + program_stderr
            }
        } else {
            program_stderr
        }
    } else {
        compiler_output
    }
}

/// Splits playground stderr into compiler output and the program's own
/// stderr. When the program ran, its stderr is returned, preceded by the
/// compiler warnings when `show_compiler_warnings` is set; otherwise the
/// compiler output is returned.
pub fn format_play_eval_stderr(stderr: &str, show_compiler_warnings: bool) -> (res: String)
    ensures
        res@ == spec_format_play_eval_stderr(stderr@, show_compiler_warnings),
{
    let start_tokens: Vec<&str> = vec!["Compiling playground"];
    let end_tokens: Vec<&str> = vec![
        "warning emitted",
        "warnings emitted",
        "warning: `playground` (bin \"playground\") generated",
        "warning: `playground` (lib) generated",
        "error: could not compile",
        "error: aborting",
        "Finished ",
    ];
    assert(views(start_tokens@) =~= seq!["Compiling playground"@]);
    assert(views(end_tokens@) =~= seq![
        "warning emitted"@,
        "warnings emitted"@,
        "warning: `playground` (bin \"playground\") generated"@,
        "warning: `playground` (lib) generated"@,
        "error: could not compile"@,
        "error: aborting"@,
        "Finished "@,
    ]);
    let compiler_output = extract_relevant_lines(stderr, start_tokens.as_slice(), end_tokens.as_slice());
    let cs = chars_of(stderr);
    let finished = chars_of("Finished ");
    assert(cs@.subrange(0, cs@.len() as int) =~= cs@);
    if find_in(&cs, 0, cs.len(), &finished).is_some() {
        let program_tokens: Vec<&str> = vec!["Finished ", "Running `target"];
        let no_tokens: Vec<&str> = Vec::new();
        assert(views(program_tokens@) =~= seq!["Finished "@, "Running `target"@]);
        assert(views(no_tokens@) =~= Seq::<Seq<char>>::empty());
        let program_stderr = extract_relevant_lines(stderr, program_tokens.as_slice(), no_tokens.as_slice());
        let mut out = String::new();
        if show_compiler_warnings {
            if compiler_output.is_empty() {
                push_str(&mut out, program_stderr);
            } else if program_stderr.is_empty() {
                push_str(&mut out, compiler_output);
            } else {
                push_str(&mut out, compiler_output);
                push_char(&mut out, '\n');
                push_str(&mut out, program_stderr);
            }
        } else {
            push_str(&mut out, program_stderr);
        }
        out
    } else {
        let mut out = String::new();
        push_str(&mut out, compiler_output);
        out
    }
}


/// What a playground command's help text describes.
#[derive(Clone, Copy)]
pub struct GenericHelp<'a> {
    pub command: &'a str,
    pub desc: &'a str,
    pub mode_and_channel: bool,
    pub warn: bool,
    pub run: bool,
    pub aliasing_model: bool,
    pub example_code: &'a str,
}

/// `s` when `b` holds, nothing otherwise.
pub open spec fn when(b: bool, s: Seq<char>) -> Seq<char> {
    if b {
        s
    } else {
        seq![]
    }
}

/// The help text of a playground command.
pub open spec fn spec_generic_help(spec: GenericHelp) -> Seq<char> {
    spec.desc@ + ". All code is executed on https://play.rust-lang.org.\n"@ + "```rust\n?"@
        + spec.command@ + when(spec.mode_and_channel, " mode={} channel={}"@) + " edition={}"@
        + when(spec.aliasing_model, " aliasingModel={}"@) + when(spec.warn, " warn={}"@) + when(
        spec.run,
        " run={}"@,
    ) + " ``\u{200B}`"@ + spec.example_code@ + "``\u{200B}`\n```\n"@ + "Optional arguments:\n"@
        + when(
        spec.mode_and_channel,
        "- mode: debug, release (default: debug)\n"@
            + "- channel: stable, beta, nightly (default: nightly)\n"@,
    ) + when(spec.aliasing_model, "- aliasingModel: stacked, tree (default: stacked)\n"@)
        + "- edition: 2015, 2018, 2021, 2024 (default: 2024)\n"@ + when(
        spec.warn,
        "- warn: true, false (default: false)\n"@,
    ) + when(spec.run, "- run: true, false (default: false)\n"@)
}

/// Builds the help text of a playground command: its description, a usage
/// line listing the flags it takes, an example, and the flags' values.
pub fn generic_help(spec: GenericHelp<'_>) -> (res: String)
    ensures
        res@ == spec_generic_help(spec),
{
    let mut reply = String::new();
    push_str(&mut reply, spec.desc);
    push_str(&mut reply, ". All code is executed on https://play.rust-lang.org.\n");
    push_str(&mut reply, "```rust\n?");
    push_str(&mut reply, spec.command);
    let ghost r1 = reply@;
    if spec.mode_and_channel {
        push_str(&mut reply, " mode={} channel={}");
    }
    assert(reply@ == r1 + when(spec.mode_and_channel, " mode={} channel={}"@));
    push_str(&mut reply, " edition={}");
    let ghost r2 = reply@;
    if spec.aliasing_model {
        push_str(&mut reply, " aliasingModel={}");
    }
    assert(reply@ == r2 + when(spec.aliasing_model, " aliasingModel={}"@));
    let ghost r3 = reply@;
    if spec.warn {
        push_str(&mut reply, " warn={}");
    }
    assert(reply@ == r3 + when(spec.warn, " warn={}"@));
    let ghost r4 = reply@;
    if spec.run {
        push_str(&mut reply, " run={}");
    }
    assert(reply@ == r4 + when(spec.run, " run={}"@));
    push_str(&mut reply, " ``\u{200B}`");
    push_str(&mut reply, spec.example_code);
    push_str(&mut reply, "``\u{200B}`\n```\n");
    push_str(&mut reply, "Optional arguments:\n");
    let ghost r5 = reply@;
    if spec.mode_and_channel {
        push_str(&mut reply, "- mode: debug, release (default: debug)\n");
        push_str(&mut reply, "- channel: stable, beta, nightly (default: nightly)\n");
    }
    assert(reply@ == r5 + when(
        spec.mode_and_channel,
        "- mode: debug, release (default: debug)\n"@
            + "- channel: stable, beta, nightly (default: nightly)\n"@,
    ));
    let ghost r6 = reply@;
    if spec.aliasing_model {
        push_str(&mut reply, "- aliasingModel: stacked, tree (default: stacked)\n");
    }
    assert(reply@ == r6 + when(
        spec.aliasing_model,
        "- aliasingModel: stacked, tree (default: stacked)\n"@,
    ));
    push_str(&mut reply, "- edition: 2015, 2018, 2021, 2024 (default: 2024)\n");
    let ghost r7 = reply@;
    if spec.warn {
        push_str(&mut reply, "- warn: true, false (default: false)\n");
    }
    assert(reply@ == r7 + when(spec.warn, "- warn: true, false (default: false)\n"@));
    let ghost r8 = reply@;
    if spec.run {
        push_str(&mut reply, "- run: true, false (default: false)\n");
    }
    assert(reply@ == r8 + when(spec.run, "- run: true, false (default: false)\n"@));
    reply
}


/// How the value of a wrapped snippet is consumed.
#[derive(Clone, Copy)]
pub enum ResultHandling {
    /// Don't consume results at all, making rustc throw an error when the result isn't ()
    Unconsumed,
    /// Consume using `let _ = { ... };`
    Discard,
    /// Print the result with `println!("{:?}")`
    Print,
}

/// For each statement of `code`, read as the body of a block (inner
/// attributes, then statements): the name and the number of parameters of
/// the function it declares, if it declares one. `None` when `code` does not
/// parse so.
pub uninterp spec fn block_fn_signatures(code: Seq<char>) -> Option<Seq<Option<(Seq<char>, usize)>>>;

/// Trusted: parses `code` with `syn` as the contents of a block expression
/// (`syn::parse_str::<syn::ExprBlock>` on `code` between braces, which reads
/// inner attributes and then statements) and reports, for each statement,
/// the name and parameter count of the function item it is. The contract
/// claims only that the result is a function of `code`; what parses is `syn`'s
/// grammar and is not stated here.
#[verifier::external_body]
fn parse_block_fn_signatures(code: &str) -> (res: Option<Vec<Option<(String, usize)>>>)
    ensures
        res.deep_view() == block_fn_signatures(code@),
{
    let block = syn::parse_str::<syn::ExprBlock>(&format!("{{\n{code}\n}}")).ok()?;
    Some(block.block.stmts.iter().map(|stmt| match stmt {
        syn::Stmt::Item(syn::Item::Fn(item)) => Some((item.sig.ident.to_string(), item.sig.inputs.len())),
        _ => None,
    }).collect())
}

/// One of `sigs` is a `fn main()` without parameters.
pub open spec fn declares_main(sigs: Seq<Option<(Seq<char>, usize)>>) -> bool {
    exists|i: int| 0 <= i < sigs.len() && sigs[i] == Some(("main"@, 0usize))
}

/// `code` without a byte-order mark at its start, as the Rust lexer reads
/// source text.
pub open spec fn without_bom(code: Seq<char>) -> Seq<char> {
    if code.len() > 0 && code[0] == '\u{feff}' {
        code.drop_first()
    } else {
        code
    }
}

/// The source text that is parsed for `code`: `code` without a leading
/// byte-order mark.
pub fn strip_bom(code: &str) -> (res: String)
    ensures
        res@ == without_bom(code@),
{
    let cs = chars_of(code);
    if cs.len() > 0 && cs[0] == '\u{feff}' {
        let r = string_of_range(&cs, 1, cs.len());
        assert(cs@.subrange(1, cs@.len() as int) =~= cs@.drop_first());
        r
    } else {
        let mut r = String::new();
        push_str(&mut r, code);
        r
    }
}

/// `code` parses as statements and none of them is a `fn main()`.
pub open spec fn needs_main_wrapper(code: Seq<char>) -> bool {
    match block_fn_signatures(without_bom(code)) {
        Some(sigs) => !declares_main(sigs),
        None => false,
    }
}

/// Whether the parsed signatures show a parameterless `fn main()`.
pub fn has_main(sigs: &Vec<Option<(String, usize)>>) -> (res: bool)
    ensures
        res == declares_main(sigs.deep_view()),
{
    let main_name = chars_of("main");
    let mut i: usize = 0;
    while i < sigs.len()
        invariant
            main_name@ == "main"@,
            0 <= i <= sigs@.len(),
            forall|j: int| 0 <= j < i ==> sigs.deep_view()[j] != Some(("main"@, 0usize)),
        decreases sigs@.len() - i,
    {
        assert(sigs.deep_view()[i as int] == sigs@[i as int].deep_view());
        if let Some((name, inputs)) = &sigs[i] {
            if *inputs == 0 && same_chars(&chars_of(name.as_str()), &main_name) {
                assert(sigs.deep_view()[i as int] == Some(("main"@, 0usize)));
                return true;
            }
        }
        i = i + 1;
    }
    false
}

/// The opening that turns a snippet into a `fn main`.
pub open spec fn wrap_head(result_handling: ResultHandling, unsf: bool, pretty: bool) -> Seq<char> {
    (match result_handling {
        ResultHandling::Unconsumed => "fn main() {\n"@,
        ResultHandling::Discard => "fn main() { let _ = {\n"@,
        ResultHandling::Print => if pretty {
            "fn main() { println!(\"{:#?}\", {\n"@
        } else {
            "fn main() { println!(\"{:?}\", {\n"@
        },
    }) + when(unsf, "unsafe {"@)
}

/// The closing that matches `wrap_head`.
pub open spec fn wrap_tail(result_handling: ResultHandling, unsf: bool) -> Seq<char> {
    when(unsf, "}"@) + match result_handling {
        ResultHandling::Unconsumed => "}"@,
        ResultHandling::Discard => "}; }"@,
        ResultHandling::Print => "}); }"@,
    }
}

/// What `maybe_wrapped` makes of `code`.
pub open spec fn spec_maybe_wrapped(
    code: Seq<char>,
    result_handling: ResultHandling,
    unsf: bool,
    pretty: bool,
) -> Seq<char> {
    if needs_main_wrapper(code) {
        spec_hoise(code, wrap_head(result_handling, unsf, pretty), wrap_tail(result_handling, unsf))
    } else {
        code
    }
}

/// Wraps `code` in a `fn main` unless it already declares one (or does not
/// parse as statements); crate attributes are kept at the top. The result
/// is borrowed exactly when nothing was wrapped.
pub fn maybe_wrap(code: &str, result_handling: ResultHandling) -> (res: std::borrow::Cow<'_, str>)
    ensures
        res@ == spec_maybe_wrapped(code@, result_handling, false, false),
        (res is Borrowed) <==> !needs_main_wrapper(code@),
{
    maybe_wrapped(code, result_handling, false, false)
}

/// Wraps `code` in a `fn main` that handles the value of the snippet as
/// `result_handling` says, inside an `unsafe` block when `unsf` is set, and
/// printing with `{:#?}` when `pretty` is set. Code that already declares
/// `fn main()`, or does not parse as statements, is returned borrowed.
pub fn maybe_wrapped(
    code: &str,
    result_handling: ResultHandling,
    unsf: bool,
    pretty: bool,
) -> (res: std::borrow::Cow<'_, str>)
    ensures
        res@ == spec_maybe_wrapped(code@, result_handling, unsf, pretty),
        (res is Borrowed) <==> !needs_main_wrapper(code@),
{
    let source = strip_bom(code);
    if !needs_wrapping(&parse_block_fn_signatures(source.as_str())) {
        return std::borrow::Cow::Borrowed(code);
    }
    std::borrow::Cow::Owned(wrap_in_main(code, result_handling, unsf, pretty))
}

/// Whether parsed statements (the function each declares, if any; `None`
/// when the snippet does not parse) call for a `fn main` around them.
pub fn needs_wrapping(sigs: &Option<Vec<Option<(String, usize)>>>) -> (res: bool)
    ensures
        res == match sigs.deep_view() {
            Some(s) => !declares_main(s),
            None => false,
        },
{
    match sigs {
        Some(s) => !has_main(s),
        None => false,
    }
}

/// `code` inside a `fn main` that handles the value of the snippet as
/// `result_handling` says (inside an `unsafe` block when `unsf` is set,
/// printing with `{:#?}` when `pretty` is set), its crate attributes first.
pub fn wrap_in_main(code: &str, result_handling: ResultHandling, unsf: bool, pretty: bool) -> (res: String)
    ensures
        res@ == spec_hoise(code@, wrap_head(result_handling, unsf, pretty), wrap_tail(result_handling, unsf)),
{
    let mut after_crate_attrs = String::new();
    match result_handling {
        ResultHandling::Unconsumed => push_str(&mut after_crate_attrs, "fn main() {\n"),
        ResultHandling::Discard => push_str(&mut after_crate_attrs, "fn main() { let _ = {\n"),
        ResultHandling::Print => if pretty {
            push_str(&mut after_crate_attrs, "fn main() { println!(\"{:#?}\", {\n")
        } else {
            push_str(&mut after_crate_attrs, "fn main() { println!(\"{:?}\", {\n")
        },
    }
    if unsf {
        push_str(&mut after_crate_attrs, "unsafe {");
    }
    assert(after_crate_attrs@ =~= wrap_head(result_handling, unsf, pretty));
    let mut after_code = String::new();
    if unsf {
        push_str(&mut after_code, "}");
    }
    match result_handling {
        ResultHandling::Unconsumed => push_str(&mut after_code, "}"),
        ResultHandling::Discard => push_str(&mut after_code, "}; }"),
        ResultHandling::Print => push_str(&mut after_code, "}); }"),
    }
    assert(after_code@ =~= wrap_tail(result_handling, unsf));
    hoise_crate_attributes(code, after_crate_attrs.as_str(), after_code.as_str())
}


/// The placeholder shown while code runs: a notice, followed by the content
/// of the bot's earlier response to the same (edited) message when there is
/// one, cut to at most 2000 bytes.
pub fn stub_message(existing_response: Option<&str>) -> (res: String)
    requires
        truncatable_at(
            "_Running code on playground..._\n"@ + match existing_response {
                Some(r) => r@,
                None => Seq::<char>::empty(),
            },
            2000,
        ),
    ensures
        is_byte_truncation(
            "_Running code on playground..._\n"@ + match existing_response {
                Some(r) => r@,
                None => Seq::<char>::empty(),
            },
            2000,
            res@,
        ),
{
    let mut stub_message = String::new();
    push_str(&mut stub_message, "_Running code on playground..._\n");
    if let Some(existing) = existing_response {
        push_str(&mut stub_message, existing);
    }
    assert(stub_message@ =~= "_Running code on playground..._\n"@ + match existing_response {
        Some(r) => r@,
        None => Seq::<char>::empty(),
    });
    truncate_bytes(stub_message.as_str(), 2000)
}


/// How the bot answers with a playground result.
#[derive(Clone, Debug)]
pub enum PlaygroundReply {
    /// The result is blank: send this short message.
    Blank(String),
    /// Send `body` followed by `end`, cut to fit; `timeout` says whether the
    /// run was killed for taking too long (and may be retried).
    Output { body: String, end: String, timeout: bool },
}

/// The result shows that the playground killed the run for taking too long.
pub open spec fn spec_timed_out(result: Seq<char>) -> bool {
    contains(result, "Killed"@) && contains(result, "timeout"@) && contains(result, "--signal=KILL"@)
}

/// How to answer with the merged output `result` of a playground run,
/// after the flag errors `flag_parse_errors`.
pub fn playground_reply(result: &str, flag_parse_errors: &str) -> (res: PlaygroundReply)
    ensures
        trim(result@).len() == 0 ==> (res matches PlaygroundReply::Blank(m) && m@
            == flag_parse_errors@ + "``` ```"@),
        trim(result@).len() != 0 ==> (res matches PlaygroundReply::Output { body, end, timeout }
            && body@ == flag_parse_errors@ + "```rust\n"@ + result@ && timeout == spec_timed_out(
            result@,
        ) && end@ == "\n```"@ + when(timeout, "Playground timeout detected"@)),
{
    let cs = chars_of(result);
    let n = cs.len();
    assert(cs@.subrange(0, n as int) =~= cs@);
    let (a, b) = trim_bounds(&cs, 0, n);
    if a == b {
        let mut m = String::new();
        push_str(&mut m, flag_parse_errors);
        push_str(&mut m, "``` ```");
        return PlaygroundReply::Blank(m);
    }
    let killed = find_in(&cs, 0, n, &chars_of("Killed")).is_some();
    let timeout_word = find_in(&cs, 0, n, &chars_of("timeout")).is_some();
    let signal = find_in(&cs, 0, n, &chars_of("--signal=KILL")).is_some();
    let timeout = killed && timeout_word && signal;
    let mut end = String::new();
    push_str(&mut end, "\n```");
    if timeout {
        push_str(&mut end, "Playground timeout detected");
    }
    assert(end@ =~= "\n```"@ + when(timeout, "Playground timeout detected"@));
    let mut body = String::new();
    push_str(&mut body, flag_parse_errors);
    push_str(&mut body, "```rust\n");
    push_str(&mut body, result);
    PlaygroundReply::Output { body, end, timeout }
}


/// The values given for the flags that the playground commands know, as
/// typed by the user; `None` where a flag was not given.
#[derive(Clone, Debug)]
pub struct FlagValues {
    pub channel: Option<String>,
    pub mode: Option<String>,
    pub edition: Option<String>,
    pub warn: Option<String>,
    pub run: Option<String>,
    pub aliasing_model: Option<String>,
}

/// The names of the flags that the playground commands know.
pub open spec fn is_known_flag(key: Seq<char>) -> bool {
    ||| key == "channel"@
    ||| key == "mode"@
    ||| key == "edition"@
    ||| key == "warn"@
    ||| key == "run"@
    ||| key == "aliasingModel"@
}

/// The value of the first of `args` (key, value) whose key is `key`.
pub open spec fn flag_value(args: Seq<(Seq<char>, Seq<char>)>, key: Seq<char>) -> Option<Seq<char>>
    decreases args.len(),
{
    if args.len() == 0 {
        None
    } else {
        match flag_value(args.drop_last(), key) {
            Some(v) => Some(v),
            None => if args.last().0 == key {
                Some(args.last().1)
            } else {
                None
            },
        }
    }
}

/// The keys of `args`, in order, that name no known flag.
pub open spec fn unknown_flags(args: Seq<(Seq<char>, Seq<char>)>) -> Seq<Seq<char>>
    decreases args.len(),
{
    if args.len() == 0 {
        seq![]
    } else {
        unknown_flags(args.drop_last()) + if is_known_flag(args.last().0) {
            Seq::<Seq<char>>::empty()
        } else {
            seq![args.last().0]
        }
    }
}

/// The (key, value) pairs as plain text.
pub open spec fn pair_views(args: Seq<(String, String)>) -> Seq<(Seq<char>, Seq<char>)> {
    args.map_values(|p: (String, String)| (p.0@, p.1@))
}

/// `v` is the optional string whose view is `o`.
pub open spec fn holds_text(v: Option<String>, o: Option<Seq<char>>) -> bool {
    match (v, o) {
        (Some(s), Some(t)) => s@ == t,
        (None, None) => true,
        _ => false,
    }
}

/// Sorts the flags given to a playground command (key, value; as many as
/// the user typed, keys unique) into the values of the known flags and the
/// names of the unknown ones, in the order given.
pub fn parse_flags(args: &Vec<(String, String)>) -> (res: (FlagValues, Vec<String>))
    ensures
        holds_text(res.0.channel, flag_value(pair_views(args@), "channel"@)),
        holds_text(res.0.mode, flag_value(pair_views(args@), "mode"@)),
        holds_text(res.0.edition, flag_value(pair_views(args@), "edition"@)),
        holds_text(res.0.warn, flag_value(pair_views(args@), "warn"@)),
        holds_text(res.0.run, flag_value(pair_views(args@), "run"@)),
        holds_text(res.0.aliasing_model, flag_value(pair_views(args@), "aliasingModel"@)),
        res.1@.map_values(|n: String| n@) == unknown_flags(pair_views(args@)),
{
    let mut channel: Option<String> = None;
    let mut mode: Option<String> = None;
    let mut edition: Option<String> = None;
    let mut warn: Option<String> = None;
    let mut run: Option<String> = None;
    let mut aliasing_model: Option<String> = None;
    let mut unknown: Vec<String> = Vec::new();
    let ghost pv = pair_views(args@);
    let mut i: usize = 0;
    while i < args.len()
        invariant
            pv == pair_views(args@),
            0 <= i <= args@.len(),
            holds_text(channel, flag_value(pv.take(i as int), "channel"@)),
            holds_text(mode, flag_value(pv.take(i as int), "mode"@)),
            holds_text(edition, flag_value(pv.take(i as int), "edition"@)),
            holds_text(warn, flag_value(pv.take(i as int), "warn"@)),
            holds_text(run, flag_value(pv.take(i as int), "run"@)),
            holds_text(aliasing_model, flag_value(pv.take(i as int), "aliasingModel"@)),
            unknown@.map_values(|n: String| n@) == unknown_flags(pv.take(i as int)),
        decreases args@.len() - i,
    {
        proof {
            reveal_strlit("channel");
            reveal_strlit("mode");
            reveal_strlit("edition");
            reveal_strlit("warn");
            reveal_strlit("run");
            reveal_strlit("aliasingModel");
            // The known names differ in their first character.
            assert("channel"@[0] == 'c' && "mode"@[0] == 'm' && "edition"@[0] == 'e');
            assert("warn"@[0] == 'w' && "run"@[0] == 'r' && "aliasingModel"@[0] == 'a');
            assert(pv.take(i + 1).drop_last() =~= pv.take(i as int));
            assert(pv.take(i + 1).last() == (args@[i as int].0@, args@[i as int].1@));
        }
        let key = chars_of(args[i].0.as_str());
        if same_chars(&key, &chars_of("channel")) {
            if channel.is_none() {
                channel = Some(args[i].1.clone());
            }
        } else if same_chars(&key, &chars_of("mode")) {
            if mode.is_none() {
                mode = Some(args[i].1.clone());
            }
        } else if same_chars(&key, &chars_of("edition")) {
            if edition.is_none() {
                edition = Some(args[i].1.clone());
            }
        } else if same_chars(&key, &chars_of("warn")) {
            if warn.is_none() {
                warn = Some(args[i].1.clone());
            }
        } else if same_chars(&key, &chars_of("run")) {
            if run.is_none() {
                run = Some(args[i].1.clone());
            }
        } else if same_chars(&key, &chars_of("aliasingModel")) {
            if aliasing_model.is_none() {
                aliasing_model = Some(args[i].1.clone());
            }
        } else {
            unknown.push(args[i].0.clone());
        }
        assert(unknown@.map_values(|n: String| n@) =~= unknown_flags(pv.take(i + 1)));
        i = i + 1;
    }
    assert(pv.take(i as int) =~= pv);
    (FlagValues { channel, mode, edition, warn, run, aliasing_model }, unknown)
}

/// The release channel a snippet runs on.
#[derive(Clone, Copy, Debug, PartialEq, Eq, Structural)]
pub enum Channel {
    Stable,
    Beta,
    Nightly,
}

/// The build mode.
#[derive(Clone, Copy, Debug, PartialEq, Eq, Structural)]
pub enum Mode {
    Debug,
    Release,
}

/// The Rust edition.
#[derive(Clone, Copy, Debug, PartialEq, Eq, Structural)]
pub enum Edition {
    E2015,
    E2018,
    E2021,
    E2024,
}

/// The aliasing model Miri checks.
#[derive(Clone, Copy, Debug, PartialEq, Eq, Structural)]
pub enum AliasingModel {
    Stacked,
    Tree,
}

/// The settings a playground command runs with.
#[derive(Clone, Copy, Debug, PartialEq, Eq, Structural)]
pub struct CommandFlags {
    pub channel: Channel,
    pub mode: Mode,
    pub edition: Edition,
    pub warn: bool,
    pub run: bool,
    pub aliasing_model: AliasingModel,
}

/// The settings when no flag is given: nightly, debug, edition 2024,
/// warnings off, not run, stacked borrows.
pub open spec fn spec_default_flags() -> CommandFlags {
    CommandFlags {
        channel: Channel::Nightly,
        mode: Mode::Debug,
        edition: Edition::E2024,
        warn: false,
        run: false,
        aliasing_model: AliasingModel::Stacked,
    }
}

/// The settings when no flag is given.
pub fn default_flags() -> (res: CommandFlags)
    ensures
        res == spec_default_flags(),
{
    CommandFlags {
        channel: Channel::Nightly,
        mode: Mode::Debug,
        edition: Edition::E2024,
        warn: false,
        run: false,
        aliasing_model: AliasingModel::Stacked,
    }
}

/// The values of the channel, mode, edition and aliasing model flags as
/// read: `None` where the flag was not given, else the value or the text
/// of the error it gave.
pub struct ParsedFlags {
    pub channel: Option<Result<Channel, String>>,
    pub mode: Option<Result<Mode, String>>,
    pub edition: Option<Result<Edition, String>>,
    pub aliasing_model: Option<Result<AliasingModel, String>>,
}

/// The text of the error that `str::parse::<bool>` gives for `value`.
pub uninterp spec fn bool_parse_error(value: Seq<char>) -> Seq<char>;

/// Trusted: `str::parse::<bool>`. Its documentation accepts exactly `true`
/// and `false` and gives an error for any other text; the error's text is
/// named by `bool_parse_error`, not stated.
#[verifier::external_body]
fn parse_bool(value: &str) -> (res: Result<bool, String>)
    ensures
        match res {
            Ok(b) => (b && value@ == "true"@) || (!b && value@ == "false"@),
            Err(e) => value@ != "true"@ && value@ != "false"@ && e@ == bool_parse_error(value@),
        },
{
    value.parse::<bool>().map_err(|e| e.to_string())
}

/// A flag's value when it was read, else `default`.
pub open spec fn value_or<T>(read: Option<Result<T, String>>, default: T) -> T {
    match read {
        Some(Ok(x)) => x,
        _ => default,
    }
}

/// The error text of a flag whose value did not read, as a line list.
pub open spec fn read_error<T>(read: Option<Result<T, String>>) -> Seq<Seq<char>> {
    match read {
        Some(Err(e)) => seq![e@],
        _ => seq![],
    }
}

/// The value of a boolean flag given as `raw` (off when not given or not
/// `true`/`false`).
pub open spec fn bool_value(raw: Option<String>) -> bool {
    match raw {
        Some(v) => v@ == "true"@,
        None => false,
    }
}

/// The error line of a boolean flag given as `raw`, if its value is
/// neither `true` nor `false`.
pub open spec fn bool_error(raw: Option<String>) -> Seq<Seq<char>> {
    match raw {
        Some(v) => if v@ == "true"@ || v@ == "false"@ {
            seq![]
        } else {
            seq![bool_parse_error(v@)]
        },
        None => seq![],
    }
}

/// The error lines of the flag values, in the order the flags are read.
pub open spec fn value_errors(parsed: ParsedFlags, values: FlagValues) -> Seq<Seq<char>> {
    read_error(parsed.channel) + read_error(parsed.mode) + read_error(parsed.edition) + bool_error(
        values.warn,
    ) + bool_error(values.run) + read_error(parsed.aliasing_model)
}

/// The settings that the read flags give: each flag's value where it read,
/// its default otherwise.
pub open spec fn spec_settled_flags(parsed: ParsedFlags, values: FlagValues) -> CommandFlags {
    CommandFlags {
        channel: value_or(parsed.channel, Channel::Nightly),
        mode: value_or(parsed.mode, Mode::Debug),
        edition: value_or(parsed.edition, Edition::E2024),
        warn: bool_value(values.warn),
        run: bool_value(values.run),
        aliasing_model: value_or(parsed.aliasing_model, AliasingModel::Stacked),
    }
}

/// Appends the error text of a flag whose value did not read.
fn push_read_error<T>(errors: &mut Vec<String>, read: &Option<Result<T, String>>)
    ensures
        final(errors)@.map_values(|e: String| e@) == old(errors)@.map_values(|e: String| e@)
            + read_error(*read),
{
    let ghost before = errors@;
    if let Some(Err(e)) = read {
        errors.push(e.clone());
        assert(errors@.map_values(|e: String| e@) =~= before.map_values(|e: String| e@) + seq![e@]);
    } else {
        assert(errors@.map_values(|e: String| e@) =~= before.map_values(|e: String| e@) + read_error(*read));
    }
}

/// Reads a boolean flag given as `raw`, appending its error text if its
/// value is neither `true` nor `false`.
fn read_bool_flag(errors: &mut Vec<String>, raw: &Option<String>) -> (res: bool)
    ensures
        res == bool_value(*raw),
        final(errors)@.map_values(|e: String| e@) == old(errors)@.map_values(|e: String| e@)
            + bool_error(*raw),
{
    let ghost before = errors@;
    match raw {
        None => {
            assert(errors@.map_values(|e: String| e@) =~= before.map_values(|e: String| e@) + bool_error(*raw));
            false
        },
        Some(v) => match parse_bool(v.as_str()) {
            Ok(b) => {
                proof {
                    reveal_strlit("true");
                    reveal_strlit("false");
                    assert("true"@[0] != "false"@[0]);
                }
                assert(errors@.map_values(|e: String| e@) =~= before.map_values(|e: String| e@) + bool_error(*raw));
                b
            },
            Err(e) => {
                errors.push(e);
                assert(errors@.map_values(|e: String| e@) =~= before.map_values(|e: String| e@) + bool_error(*raw));
                false
            },
        },
    }
}

/// The settings of a playground command and its error report, from the
/// flags read: each flag takes its value where it reads and its default
/// otherwise (`warn` and `run` are read as `true` or `false` here); the
/// report has the error of each value that did not read, in the order
/// channel, mode, edition, warn, run, aliasing model, then a line for each
/// unknown flag.
pub fn settle_flags(parsed: &ParsedFlags, values: &FlagValues, unknown: &Vec<String>) -> (res: (
    CommandFlags,
    String,
))
    ensures
        res.0 == spec_settled_flags(*parsed, *values),
        res.1@ == spec_flag_errors(value_errors(*parsed, *values), unknown@.map_values(|n: String| n@)),
{
    let mut errors: Vec<String> = Vec::new();
    assert(errors@.map_values(|e: String| e@) =~= Seq::<Seq<char>>::empty());
    push_read_error(&mut errors, &parsed.channel);
    push_read_error(&mut errors, &parsed.mode);
    push_read_error(&mut errors, &parsed.edition);
    let warn = read_bool_flag(&mut errors, &values.warn);
    let run = read_bool_flag(&mut errors, &values.run);
    push_read_error(&mut errors, &parsed.aliasing_model);
    assert(errors@.map_values(|e: String| e@) =~= value_errors(*parsed, *values));
    let flags = CommandFlags {
        channel: match &parsed.channel {
            Some(Ok(c)) => *c,
            _ => Channel::Nightly,
        },
        mode: match &parsed.mode {
            Some(Ok(m)) => *m,
            _ => Mode::Debug,
        },
        edition: match &parsed.edition {
            Some(Ok(e)) => *e,
            _ => Edition::E2024,
        },
        warn,
        run,
        aliasing_model: match &parsed.aliasing_model {
            Some(Ok(a)) => *a,
            _ => AliasingModel::Stacked,
        },
    };
    (flags, flag_errors(&errors, unknown))
}

/// The error report of a playground command's flags: each message of a
/// value that did not parse, then a line for each unknown flag; every line
/// ends in a newline.
pub open spec fn spec_flag_errors(value_errors: Seq<Seq<char>>, unknown: Seq<Seq<char>>) -> Seq<char> {
    join_lines(value_errors) + join_lines(
        unknown.map_values(|n: Seq<char>| "unknown flag `"@ + n + "`"@),
    )
}

/// Writes the error report of a playground command's flags.
pub fn flag_errors(value_errors: &Vec<String>, unknown: &Vec<String>) -> (res: String)
    ensures
        res@ == spec_flag_errors(
            value_errors@.map_values(|e: String| e@),
            unknown@.map_values(|n: String| n@),
        ),
{
    let ghost ev = value_errors@.map_values(|e: String| e@);
    let ghost uv = unknown@.map_values(|n: String| n@).map_values(
        |n: Seq<char>| "unknown flag `"@ + n + "`"@,
    );
    let mut out = String::new();
    let mut i: usize = 0;
    assert(ev.skip(0) =~= ev);
    while i < value_errors.len()
        invariant
            ev == value_errors@.map_values(|e: String| e@),
            0 <= i <= value_errors@.len(),
            out@ + join_lines(ev.skip(i as int)) == join_lines(ev),
        decreases value_errors@.len() - i,
    {
        proof {
            assert(ev.skip(i as int).drop_first() =~= ev.skip(i + 1));
            assert(ev.skip(i as int)[0] == value_errors@[i as int]@);
        }
        push_str(&mut out, value_errors[i].as_str());
        push_char(&mut out, '\n');
        i = i + 1;
    }
    assert(ev.skip(i as int) =~= Seq::<Seq<char>>::empty());
    let ghost head = out@;
    let mut j: usize = 0;
    assert(uv.skip(0) =~= uv);
    while j < unknown.len()
        invariant
            uv == unknown@.map_values(|n: String| n@).map_values(
                |n: Seq<char>| "unknown flag `"@ + n + "`"@,
            ),
            head == join_lines(ev),
            0 <= j <= unknown@.len(),
            out@ + join_lines(uv.skip(j as int)) == head + join_lines(uv),
        decreases unknown@.len() - j,
    {
        proof {
            assert(uv.skip(j as int).drop_first() =~= uv.skip(j + 1));
            assert(uv.skip(j as int)[0] == "unknown flag `"@ + unknown@[j as int]@ + "`"@);
        }
        push_str(&mut out, "unknown flag `");
        push_str(&mut out, unknown[j].as_str());
        push_str(&mut out, "`");
        push_char(&mut out, '\n');
        j = j + 1;
    }
    assert(uv.skip(j as int) =~= Seq::<Seq<char>>::empty());
    out
}


// ---------------------------------------------------------------------------
// Laws
// ---------------------------------------------------------------------------

/// Lemma: removing leading newlines leaves no leading newline.
pub proof fn lemma_trim_leading_newlines(s: Seq<char>)
    ensures
        trim_leading_newlines(s).len() == 0 || trim_leading_newlines(s)[0] != '\n',
    decreases s.len(),
{
    if s.len() > 0 && s[0] == '\n' {
        lemma_trim_leading_newlines(s.drop_first());
    }
}

/// Lemma: dropping repeated trailing newlines keeps a non-empty prefix of a
/// non-empty text and leaves no repeated trailing newline.
pub proof fn lemma_drop_trailing_blank_lines(s: Seq<char>)
    ensures
        drop_trailing_blank_lines(s) == s.take(drop_trailing_blank_lines(s).len() as int),
        drop_trailing_blank_lines(s).len() <= s.len(),
        s.len() > 0 ==> drop_trailing_blank_lines(s).len() > 0,
        !({
            let r = drop_trailing_blank_lines(s);
            r.len() >= 2 && r[r.len() - 1] == '\n' && r[r.len() - 2] == '\n'
        }),
    decreases s.len(),
{
    if s.len() >= 2 && s[s.len() - 1] == '\n' && s[s.len() - 2] == '\n' {
        lemma_drop_trailing_blank_lines(s.drop_last());
        let r = drop_trailing_blank_lines(s.drop_last());
        assert(s.drop_last().take(r.len() as int) =~= s.take(r.len() as int));
    } else {
        assert(s.take(s.len() as int) =~= s);
    }
}

/// What `extract_relevant_lines` returns neither starts with an empty line
/// nor ends with one: no leading newline, no two newlines at the end.
pub proof fn lemma_extract_has_no_blank_edges(
    s: Seq<char>,
    starts: Seq<Seq<char>>,
    ends: Seq<Seq<char>>,
)
    ensures
        ({
            let r = spec_extract_relevant_lines(s, starts, ends);
            &&& r.len() == 0 || r[0] != '\n'
            &&& !(r.len() >= 2 && r[r.len() - 1] == '\n' && r[r.len() - 2] == '\n')
        }),
{
    let x = trim_leading_newlines(cut_before_end(cut_after_start(s, starts), ends));
    lemma_trim_leading_newlines(cut_before_end(cut_after_start(s, starts), ends));
    lemma_drop_trailing_blank_lines(x);
    let r = drop_trailing_blank_lines(x);
    if r.len() > 0 {
        assert(r[0] == x.take(r.len() as int)[0]);
    }
}

/// The start cut is made after the last occurrence that lies furthest
/// back among all start tokens; the end cut before the earliest last
/// occurrence among the end tokens ("as compact as possible").
pub proof fn lemma_cut_positions_are_extreme(s: Seq<char>, tokens: Seq<Seq<char>>, t: int)
    requires
        0 <= t < tokens.len(),
        rfind(s, tokens[t]) is Some,
    ensures
        max_rfind(s, tokens) is Some && max_rfind(s, tokens)->0 >= rfind(s, tokens[t])->0,
        min_rfind(s, tokens) is Some && min_rfind(s, tokens)->0 <= rfind(s, tokens[t])->0,
    decreases tokens.len(),
{
    if t < tokens.len() - 1 {
        lemma_cut_positions_are_extreme(s, tokens.drop_last(), t);
        assert(tokens.drop_last()[t] == tokens[t]);
    }
}

/// Lemma: lines joined with newlines end in a newline, unless there are none.
pub proof fn lemma_join_lines_ends_with_newline(ls: Seq<Seq<char>>)
    ensures
        ls.len() == 0 <==> join_lines(ls).len() == 0,
        ls.len() > 0 ==> join_lines(ls)[join_lines(ls).len() - 1] == '\n',
    decreases ls.len(),
{
    if ls.len() > 0 {
        lemma_join_lines_ends_with_newline(ls.drop_first());
        let rest = join_lines(ls.drop_first());
        let j = ls[0] + seq!['\n'] + rest;
        assert(join_lines(ls) == j);
        if rest.len() == 0 {
            assert(j[j.len() - 1] == '\n');
        } else {
            assert(j[j.len() - 1] == rest[rest.len() - 1]);
        }
    }
}

/// Formatted code with its boilerplate stripped has a trailing newline on
/// every line: it is empty, or it ends with a newline.
pub proof fn lemma_stripped_code_ends_with_newline(text: Seq<char>)
    ensures
        spec_strip_fn_main(text).len() == 0 || spec_strip_fn_main(text)[spec_strip_fn_main(
            text,
        ).len() - 1] == '\n',
{
    lemma_join_lines_ends_with_newline(
        lines(trim(main_body(text))).map_values(|l: Seq<char>| unindent(l)),
    );
}

/// Wrapped code begins with the snippet's crate attributes and then the
/// opening of `fn main`, and ends with the closing of `fn main`.
pub proof fn lemma_wrapped_code_layout(
    code: Seq<char>,
    result_handling: ResultHandling,
    unsf: bool,
    pretty: bool,
)
    requires
        needs_main_wrapper(code),
    ensures
        ({
            let out = spec_maybe_wrapped(code, result_handling, unsf, pretty);
            let head = head_attributes(lines(code)) + wrap_head(result_handling, unsf, pretty);
            let tail = wrap_tail(result_handling, unsf);
            &&& starts_with(out, head)
            &&& ends_with(out, tail)
        }),
{
    let out = spec_maybe_wrapped(code, result_handling, unsf, pretty);
    let head = head_attributes(lines(code)) + wrap_head(result_handling, unsf, pretty);
    let body = join_lines(body_lines(lines(code)));
    let tail = wrap_tail(result_handling, unsf);
    assert(out == head + body + tail);
    assert(out.take(head.len() as int) =~= head);
    assert(out.skip(out.len() - tail.len()) =~= tail);
}

/// When the program did not get to run, the compiler output is what is
/// shown, whether compiler warnings are asked for or not.
pub proof fn lemma_failed_build_ignores_warning_flag(stderr: Seq<char>)
    requires
        !contains(stderr, "Finished "@),
    ensures
        spec_format_play_eval_stderr(stderr, true) == spec_format_play_eval_stderr(stderr, false),
{
}

/// The error report of the flags has a trailing newline unless it is empty:
/// it holds exactly as many newlines as lines.
pub proof fn lemma_flag_errors_end_with_newline(value_errors: Seq<Seq<char>>, unknown: Seq<Seq<char>>)
    ensures
        ({
            let r = spec_flag_errors(value_errors, unknown);
            &&& (r.len() == 0 <==> value_errors.len() == 0 && unknown.len() == 0)
            &&& r.len() > 0 ==> r[r.len() - 1] == '\n'
        }),
{
    let u = unknown.map_values(|n: Seq<char>| "unknown flag `"@ + n + "`"@);
    lemma_join_lines_ends_with_newline(value_errors);
    lemma_join_lines_ends_with_newline(u);
    let a = join_lines(value_errors);
    let b = join_lines(u);
    let r = a + b;
    if b.len() > 0 {
        assert(r[r.len() - 1] == b[b.len() - 1]);
    } else if a.len() > 0 {
        assert(r[r.len() - 1] == a[a.len() - 1]);
    }
}

/// A playground command's flag report is empty exactly when every flag is
/// known and every value given reads; otherwise it ends in a newline.
pub proof fn lemma_flag_report_empty_iff_all_read(
    parsed: ParsedFlags,
    values: FlagValues,
    unknown: Seq<Seq<char>>,
)
    ensures
        ({
            let r = spec_flag_errors(value_errors(parsed, values), unknown);
            &&& r.len() == 0 <==> {
                &&& unknown.len() == 0
                &&& !(parsed.channel matches Some(Err(_)))
                &&& !(parsed.mode matches Some(Err(_)))
                &&& !(parsed.edition matches Some(Err(_)))
                &&& !(parsed.aliasing_model matches Some(Err(_)))
                &&& (values.warn matches Some(v) ==> v@ == "true"@ || v@ == "false"@)
                &&& (values.run matches Some(v) ==> v@ == "true"@ || v@ == "false"@)
            }
            &&& r.len() > 0 ==> r[r.len() - 1] == '\n'
        }),
{
    lemma_flag_errors_end_with_newline(value_errors(parsed, values), unknown);
}

/// Lemma: the head of lines that hoisting moves is made of crate-attribute
/// lines, and what stays is the lines from some index on.
proof fn lemma_head_split(ls: Seq<Seq<char>>) -> (r: (Seq<Seq<char>>, int))
    ensures
        head_attributes(ls) == join_lines(r.0),
        0 <= r.1 <= ls.len(),
        body_lines(ls) == ls.skip(r.1),
        forall|i: int| 0 <= i < r.0.len() ==> starts_with(#[trigger] r.0[i], "#!["@),
    decreases ls.len(),
{
    if ls.len() == 0 || !is_head_line(ls[0]) {
        assert(ls.skip(0) =~= ls);
        (seq![], 0)
    } else {
        let (hs, k) = lemma_head_split(ls.drop_first());
        assert(ls.drop_first().skip(k) =~= ls.skip(k + 1));
        if starts_with(trim(ls[0]), "#!["@) {
            let h2 = seq![trim(ls[0])] + hs;
            assert(h2.drop_first() =~= hs);
            assert(h2[0] == trim(ls[0]));
            assert forall|i: int| 0 <= i < h2.len() implies starts_with(#[trigger] h2[i], "#!["@) by {
                if i > 0 {
                    assert(h2[i] == hs[i - 1]);
                }
            }
            (h2, k + 1)
        } else {
            (hs, k + 1)
        }
    }
}

/// Hoisting moves nothing but crate attributes: what comes before
/// `after_crate_attrs` is a list of lines that each start with `#![` (an
/// outer attribute such as `#[derive(..)]` stays with its item), and what
/// follows it is the code's lines from some line on, then `after_code`.
pub proof fn lemma_hoist_moves_only_crate_attributes(
    code: Seq<char>,
    after_crate_attrs: Seq<char>,
    after_code: Seq<char>,
) -> (r: (Seq<Seq<char>>, int))
    ensures
        0 <= r.1 <= lines(code).len(),
        forall|i: int| 0 <= i < r.0.len() ==> starts_with(#[trigger] r.0[i], "#!["@),
        spec_hoise(code, after_crate_attrs, after_code) == join_lines(r.0) + after_crate_attrs
            + join_lines(lines(code).skip(r.1)) + after_code,
{
    lemma_head_split(lines(code))
}

/// When the program got to run (stderr holds `Finished `), what is shown
/// without compiler warnings is a stretch of stderr that starts after the
/// last `Finished `: cargo's own lines up to it, `Compiling playground`
/// among them, are never shown as the program's output.
pub proof fn lemma_program_stderr_follows_finished(stderr: Seq<char>) -> (r: (int, int))
    requires
        contains(stderr, "Finished "@),
    ensures
        rfind(stderr, "Finished "@) is Some,
        rfind(stderr, "Finished "@)->0 < r.0 <= r.1 <= stderr.len(),
        spec_format_play_eval_stderr(stderr, false) == stderr.subrange(r.0, r.1),
{
    let tokens = seq!["Finished "@, "Running `target"@];
    lemma_contains_rfind(stderr, "Finished "@);
    let pf = rfind(stderr, "Finished "@)->0;
    lemma_rfind_upto_found(stderr, "Finished "@, stderr.len() - "Finished "@.len());
    reveal_strlit("Finished ");
    assert(tokens[0] == "Finished "@);
    lemma_cut_positions_are_extreme(stderr, tokens, 0);
    lemma_max_rfind_bound(stderr, tokens);
    let p = max_rfind(stderr, tokens)->0;
    let cut = cut_after_start(stderr, tokens);
    assert(cut_before_end(cut, seq![]) == cut);
    let out = spec_extract_relevant_lines(stderr, tokens, seq![]);
    assert(spec_format_play_eval_stderr(stderr, false) == out);
    match find(stderr.skip(p), seq!['\n']) {
        Some(le) => {
            lemma_find_from_found(stderr.skip(p), seq!['\n'], 0);
            let q = p + le + 1;
            assert(cut == stderr.skip(q));
            let t = lemma_trim_leading_newlines_suffix(cut);
            let x = trim_leading_newlines(cut);
            lemma_drop_trailing_blank_lines(x);
            let m = drop_trailing_blank_lines(x).len() as int;
            assert(out == x.take(m));
            assert(out =~= stderr.subrange(q + t, q + t + m));
            (q + t, q + t + m)
        },
        None => {
            assert(cut == Seq::<char>::empty());
            assert(trim_leading_newlines(cut) == cut);
            assert(drop_trailing_blank_lines(cut) == cut);
            assert(out =~= stderr.subrange(stderr.len() as int, stderr.len() as int));
            (stderr.len() as int, stderr.len() as int)
        },
    }
}

/// Stripping the boilerplate keeps every line of the trimmed main body,
/// blank lines too: the result holds exactly one newline per body line.
pub proof fn lemma_strip_keeps_every_line(text: Seq<char>)
    ensures
        newline_count(spec_strip_fn_main(text)) == lines(trim(main_body(text))).len(),
{
    let body = trim(main_body(text));
    let ls = lines(body);
    lemma_lines_newline_free(body);
    let us = ls.map_values(|l: Seq<char>| unindent(l));
    assert forall|i: int| 0 <= i < us.len() implies newline_free(#[trigger] us[i]) by {
        assert(newline_free(ls[i]));
        assert(us[i] == unindent(ls[i]));
        if starts_with(ls[i], "    "@) {
            assert forall|j: int| 0 <= j < us[i].len() implies us[i][j] != '\n' by {
                assert(us[i][j] == ls[i][j + "    "@.len()]);
            }
        }
    }
    lemma_join_lines_newline_count(us);
}

/// A flag value that reads is the setting, one that does not (or is not
/// given) leaves the default; `warn` and `run` are on exactly when given
/// as `true`.
pub proof fn lemma_read_flags_are_the_settings(parsed: ParsedFlags, values: FlagValues)
    ensures
        ({
            let f = spec_settled_flags(parsed, values);
            &&& (parsed.channel matches Some(Ok(c)) ==> f.channel == c)
            &&& (!(parsed.channel matches Some(Ok(_))) ==> f.channel == Channel::Nightly)
            &&& (parsed.mode matches Some(Ok(m)) ==> f.mode == m)
            &&& (!(parsed.mode matches Some(Ok(_))) ==> f.mode == Mode::Debug)
            &&& (parsed.edition matches Some(Ok(e)) ==> f.edition == e)
            &&& (!(parsed.edition matches Some(Ok(_))) ==> f.edition == Edition::E2024)
            &&& (parsed.aliasing_model matches Some(Ok(a)) ==> f.aliasing_model == a)
            &&& (!(parsed.aliasing_model matches Some(Ok(_))) ==> f.aliasing_model
                == AliasingModel::Stacked)
            &&& f.warn == (values.warn matches Some(v) && v@ == "true"@)
            &&& f.run == (values.run matches Some(v) && v@ == "true"@)
        }),
{
}

} // verus!
