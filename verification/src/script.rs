//! The updater script of TCL Android OTA packages: its parser, and the
//! partition dumper script and partition map generated from it.

use vstd::prelude::*;
use crate::fmt::{dec, spec_dec, spec_digits, digit_char};
use crate::text::{
    char_range, chars_eq, chars_of, ends_with, push_all, push_str, spec_split, spec_trim,
    split_char, split_state, starts_with, string_from_chars, trim, views,
};

verus! {

/// One partition operation of an updater script.
#[derive(Clone, Debug)]
pub enum ScriptAction {
    WholeImage { device: String, image: String },
    BlockBackup { device: String, offset: u32, blocks: u32 },
    BlockRecovery { device: String, offset: u32, blocks: u32 },
    PackageExtract { image: String, destination: String },
}

/// A script action with its strings taken as character sequences.
pub ghost enum ActionModel {
    WholeImage { device: Seq<char>, image: Seq<char> },
    BlockBackup { device: Seq<char>, offset: u32, blocks: u32 },
    BlockRecovery { device: Seq<char>, offset: u32, blocks: u32 },
    PackageExtract { image: Seq<char>, destination: Seq<char> },
}

impl View for ScriptAction {
    type V = ActionModel;

    open spec fn view(&self) -> ActionModel {
        match self {
            ScriptAction::WholeImage { device, image } => ActionModel::WholeImage {
                device: device@,
                image: image@,
            },
            ScriptAction::BlockBackup { device, offset, blocks } => ActionModel::BlockBackup {
                device: device@,
                offset: *offset,
                blocks: *blocks,
            },
            ScriptAction::BlockRecovery { device, offset, blocks } => ActionModel::BlockRecovery {
                device: device@,
                offset: *offset,
                blocks: *blocks,
            },
            ScriptAction::PackageExtract { image, destination } => ActionModel::PackageExtract {
                image: image@,
                destination: destination@,
            },
        }
    }
}

/// The models of a sequence of actions.
pub open spec fn action_models(v: Seq<ScriptAction>) -> Seq<ActionModel> {
    Seq::new(v.len(), |i: int| v[i]@)
}

// ---------------------------------------------------------------------------
// Integer arguments

/// The value of the decimal digits `d`.
pub open spec fn decimal_value(d: Seq<char>) -> nat
    decreases d.len(),
{
    if d.len() == 0 {
        0
    } else {
        decimal_value(d.drop_last()) * 10 + (d.last() as nat - 0x30) as nat
    }
}

/// A decimal digit.
pub open spec fn is_digit(c: char) -> bool {
    '0' <= c <= '9'
}

/// Every character of `d` is a decimal digit.
pub open spec fn all_digits(d: Seq<char>) -> bool {
    forall|i: int| 0 <= i < d.len() ==> is_digit(#[trigger] d[i])
}

/// The digits of a `u32` literal: without a leading `+`.
pub open spec fn unsigned_digits(s: Seq<char>) -> Seq<char> {
    if s.len() > 0 && s[0] == '+' {
        s.drop_first()
    } else {
        s
    }
}

/// What `str::parse::<u32>` gives: an optional `+`, then one or more
/// decimal digits whose value fits in 32 bits.
pub open spec fn spec_parse_u32(s: Seq<char>) -> Option<u32> {
    let d = unsigned_digits(s);
    if d.len() > 0 && all_digits(d) && decimal_value(d) <= u32::MAX {
        Some(decimal_value(d) as u32)
    } else {
        None
    }
}

proof fn lemma_decimal_monotone(d: Seq<char>, k: int)
    requires
        0 <= k <= d.len(),
        all_digits(d),
    ensures
        decimal_value(d.take(k)) <= decimal_value(d),
    decreases d.len() - k,
{
    if k < d.len() {
        lemma_decimal_monotone(d, k + 1);
        assert(d.take(k + 1).drop_last() =~= d.take(k));
    } else {
        assert(d.take(k) =~= d);
    }
}

proof fn lemma_dec_digits(n: nat)
    ensures
        spec_dec(n).len() > 0,
        all_digits(spec_dec(n)),
        decimal_value(spec_dec(n)) == n,
    decreases n,
{
    if n < 10 {
        let c = digit_char(n, false);
        assert(c as nat == 0x30 + n);
        assert(spec_dec(n) == seq![c]);
        assert(seq![c].drop_last() =~= Seq::<char>::empty());
        assert(is_digit(seq![c][0]));
        assert(decimal_value(Seq::<char>::empty()) == 0);
        assert(decimal_value(seq![c]) == n);
        assert forall|i: int| 0 <= i < seq![c].len() implies is_digit(#[trigger] seq![c][i]) by {
            assert(i == 0);
        }
    } else {
        lemma_dec_digits(n / 10);
        let p = spec_dec(n / 10);
        let c = digit_char(n % 10, false);
        assert(c as nat == 0x30 + n % 10);
        assert(spec_dec(n) == p.push(c));
        assert(p.push(c).drop_last() =~= p);
        assert((n / 10) * 10 + n % 10 == n) by (nonlinear_arith);
        assert(decimal_value(p.push(c)) == decimal_value(p) * 10 + n % 10);
        assert forall|i: int| 0 <= i < p.push(c).len() implies is_digit(#[trigger] p.push(c)[i]) by {
            if i < p.len() {
                assert(p.push(c)[i] == p[i]);
            }
        }
    }
}

/// Any string of decimal digits, with or without a leading `+`, whose
/// value fits in 32 bits parses to that value.
pub proof fn lemma_parse_u32_accepts_every_u32(d: Seq<char>)
    requires
        d.len() > 0,
        all_digits(d),
        decimal_value(d) <= u32::MAX,
    ensures
        spec_parse_u32(d) == Some(decimal_value(d) as u32),
        spec_parse_u32(seq!['+'] + d) == Some(decimal_value(d) as u32),
{
    assert(is_digit(d[0]));
    assert((seq!['+'] + d).drop_first() =~= d);
}

/// Parsing the decimal rendering of any `u32` gives it back.
pub proof fn lemma_parse_u32_reads_decimal(v: u32)
    ensures
        spec_parse_u32(spec_dec(v as nat)) == Some(v),
{
    lemma_dec_digits(v as nat);
    assert(is_digit(spec_dec(v as nat)[0]));
}

/// Parses a decimal `u32` the way `str::parse::<u32>` does.
pub fn parse_u32(s: &[char]) -> (r: Option<u32>)
    ensures
        r == spec_parse_u32(s@),
{
    let start: usize = if s.len() > 0 && s[0] == '+' {
        1
    } else {
        0
    };
    let ghost d = unsigned_digits(s@);
    assert(d =~= s@.skip(start as int));
    if start >= s.len() {
        return None;
    }
    let mut v: u64 = 0;
    let mut i: usize = start;
    while i < s.len()
        invariant
            start <= i <= s@.len(),
            start < s@.len(),
            d == s@.skip(start as int),
            d == unsigned_digits(s@),
            forall|j: int| start <= j < i ==> is_digit(#[trigger] s@[j]),
            v as nat == decimal_value(d.take(i - start)),
            v <= u32::MAX,
        decreases s@.len() - i,
    {
        let c = s[i];
        if !('0' <= c && c <= '9') {
            assert(d[i - start] == c);
            assert(!is_digit(d[i - start]));
            return None;
        }
        let dv = (c as u32 - 0x30) as u64;
        assert(d.take(i - start + 1).drop_last() =~= d.take(i - start));
        assert(d.take(i - start + 1).last() == c);
        let nv = v * 10 + dv;
        if nv > u32::MAX as u64 {
            proof {
                if all_digits(d) {
                    lemma_decimal_monotone(d, i - start + 1);
                    assert(decimal_value(d.take(i - start + 1)) == nv);
                }
            }
            return None;
        }
        v = nv;
        i += 1;
    }
    assert(d.take(i - start) =~= d);
    Some(v as u32)
}

/// Parses an integer argument: `str::trim`, then `str::parse::<u32>`.
pub fn parse_u32_arg(arg: &[char]) -> (r: Option<u32>)
    ensures
        r == spec_parse_u32(spec_trim(arg@)),
{
    let t = trim(arg);
    parse_u32(t.as_slice())
}

// ---------------------------------------------------------------------------
// String arguments and argument lists

/// A quoted argument without its quotes, after trimming.
pub open spec fn spec_parse_string_arg(arg: Seq<char>) -> Option<Seq<char>> {
    let t = spec_trim(arg);
    if t.len() >= 2 && t[0] == '"' && t.last() == '"' {
        Some(t.subrange(1, t.len() - 1))
    } else {
        None
    }
}

/// Parses a double-quoted string argument.
pub fn parse_string_arg(arg: &[char]) -> (r: Option<Vec<char>>)
    ensures
        match spec_parse_string_arg(arg@) {
            Some(s) => r matches Some(v) && v@ == s,
            None => r is None,
        },
{
    let t = trim(arg);
    let n = t.len();
    if n >= 2 && t[0] == '"' && t[n - 1] == '"' {
        Some(char_range(t.as_slice(), 1, n - 1))
    } else {
        None
    }
}

/// The state of the argument splitter after the first `i` characters:
/// finished arguments, the current one, inside quotes, after a backslash.
pub open spec fn split_args_state(s: Seq<char>, i: nat) -> (Seq<Seq<char>>, Seq<char>, bool, bool)
    decreases i,
{
    if i == 0 || i > s.len() {
        (Seq::empty(), Seq::empty(), false, false)
    } else {
        let (args, cur, q, e) = split_args_state(s, (i - 1) as nat);
        let ch = s[i - 1];
        if e {
            (args, cur.push(ch), q, false)
        } else if ch == '\\' && q {
            (args, cur, q, true)
        } else if ch == '"' {
            (args, cur, !q, e)
        } else if ch == ',' && !q {
            (args.push(spec_trim(cur)), Seq::empty(), q, e)
        } else {
            (args, cur.push(ch), q, e)
        }
    }
}

/// The arguments of a comma-separated list: quotes group commas and are
/// dropped, a backslash inside quotes takes the next character as is, and
/// each argument is trimmed.
pub open spec fn spec_split_args(s: Seq<char>) -> Seq<Seq<char>> {
    let (args, cur, _q, _e) = split_args_state(s, s.len());
    args.push(spec_trim(cur))
}

/// Splits a comma-separated argument list.
pub fn split_args(input: &[char]) -> (r: Vec<Vec<char>>)
    ensures
        views(r@) == spec_split_args(input@),
{
    let mut args: Vec<Vec<char>> = Vec::new();
    let mut current: Vec<char> = Vec::new();
    let mut in_quotes = false;
    let mut escaped = false;
    let mut i: usize = 0;
    while i < input.len()
        invariant
            i <= input@.len(),
            split_args_state(input@, i as nat) == (views(args@), current@, in_quotes, escaped),
        decreases input@.len() - i,
    {
        let ch = input[i];
        if escaped {
            current.push(ch);
            escaped = false;
        } else if ch == '\\' && in_quotes {
            escaped = true;
        } else if ch == '"' {
            in_quotes = !in_quotes;
        } else if ch == ',' && !in_quotes {
            let t = trim(current.as_slice());
            let ghost a0 = args@;
            args.push(t);
            assert(views(args@) =~= views(a0).push(t@));
            current = Vec::new();
        } else {
            current.push(ch);
        }
        i += 1;
    }
    let t = trim(current.as_slice());
    let ghost a0 = args@;
    args.push(t);
    assert(views(args@) =~= views(a0).push(t@));
    args
}

/// The arguments of `line` read as a call `name(...);`.
pub open spec fn spec_parse_function_args(line: Seq<char>, name: Seq<char>) -> Option<
    Seq<Seq<char>>,
> {
    let prefix = name.push('(');
    if prefix.len() <= line.len() && line.take(prefix.len() as int) == prefix {
        let rest = line.skip(prefix.len() as int);
        if rest.len() >= 2 && rest[rest.len() - 2] == ')' && rest[rest.len() - 1] == ';' {
            let inner = spec_trim(rest.take(rest.len() - 2));
            if inner.len() == 0 {
                Some(Seq::empty())
            } else {
                Some(spec_split_args(inner))
            }
        } else {
            None
        }
    } else {
        None
    }
}

/// Reads `line` as a call of the function `name` ending in `);` and splits
/// its arguments.
pub fn parse_function_args(line: &[char], name: &[char]) -> (r: Option<Vec<Vec<char>>>)
    ensures
        match spec_parse_function_args(line@, name@) {
            Some(a) => r matches Some(v) && views(v@) == a,
            None => r is None,
        },
{
    let mut prefix: Vec<char> = Vec::new();
    push_all(&mut prefix, name);
    prefix.push('(');
    if !starts_with(line, prefix.as_slice()) {
        return None;
    }
    let rest = char_range(line, prefix.len(), line.len());
    assert(rest@ =~= line@.skip(prefix@.len() as int));
    let n = rest.len();
    if n < 2 || rest[n - 2] != ')' || rest[n - 1] != ';' {
        return None;
    }
    let body = char_range(rest.as_slice(), 0, n - 2);
    assert(body@ =~= rest@.take(n - 2));
    let inner = trim(body.as_slice());
    if inner.len() == 0 {
        let v: Vec<Vec<char>> = Vec::new();
        assert(views(v@) =~= Seq::<Seq<char>>::empty());
        return Some(v);
    }
    Some(split_args(inner.as_slice()))
}

// ---------------------------------------------------------------------------
// Lines and actions

/// `two string arguments`
pub open spec fn two_strings(args: Seq<Seq<char>>) -> Option<(Seq<char>, Seq<char>)> {
    if args.len() == 2 {
        match (spec_parse_string_arg(args[0]), spec_parse_string_arg(args[1])) {
            (Some(a), Some(b)) => Some((a, b)),
            _ => None,
        }
    } else {
        None
    }
}

/// `a string and two integer arguments`
pub open spec fn string_and_two_u32(args: Seq<Seq<char>>) -> Option<(Seq<char>, u32, u32)> {
    if args.len() == 3 {
        match (
            spec_parse_string_arg(args[0]),
            spec_parse_u32(spec_trim(args[1])),
            spec_parse_u32(spec_trim(args[2])),
        ) {
            (Some(a), Some(b), Some(c)) => Some((a, b, c)),
            _ => None,
        }
    } else {
        None
    }
}

/// The two string arguments of a call of `name` on line `t`.
pub open spec fn call_two_strings(t: Seq<char>, name: Seq<char>) -> Option<(Seq<char>, Seq<char>)> {
    match spec_parse_function_args(t, name) {
        Some(a) => two_strings(a),
        None => None,
    }
}

/// The string and two integer arguments of a call of `name` on line `t`.
pub open spec fn call_string_two_u32(t: Seq<char>, name: Seq<char>) -> Option<
    (Seq<char>, u32, u32),
> {
    match spec_parse_function_args(t, name) {
        Some(a) => string_and_two_u32(a),
        None => None,
    }
}

/// The action a trimmed script line stands for, if any.
pub open spec fn spec_line_action(t: Seq<char>) -> Option<ActionModel> {
    match call_two_strings(t, "whole_image_update"@) {
        Some((device, image)) => Some(ActionModel::WholeImage { device, image }),
        None => match call_string_two_u32(t, "block_Backup"@) {
            Some((device, offset, blocks)) => Some(
                ActionModel::BlockBackup { device, offset, blocks },
            ),
            None => match call_string_two_u32(t, "block_Recovery"@) {
                Some((device, offset, blocks)) => Some(
                    ActionModel::BlockRecovery { device, offset, blocks },
                ),
                None => match call_two_strings(t, "package_extract_file"@) {
                    Some((image, destination)) => Some(
                        ActionModel::PackageExtract { image, destination },
                    ),
                    None => None,
                },
            },
        },
    }
}

/// The actions of `lines`, in order: each line is trimmed; empty lines and
/// `#` comments are skipped, as are lines that are no recognised call.
pub open spec fn spec_lines_actions(lines: Seq<Seq<char>>) -> Seq<ActionModel>
    decreases lines.len(),
{
    if lines.len() == 0 {
        Seq::empty()
    } else {
        let prev = spec_lines_actions(lines.drop_last());
        let t = spec_trim(lines.last());
        if t.len() == 0 || t[0] == '#' {
            prev
        } else {
            match spec_line_action(t) {
                Some(a) => prev.push(a),
                None => prev,
            }
        }
    }
}

/// The actions of an updater script.
pub open spec fn spec_script_actions(script: Seq<char>) -> Seq<ActionModel> {
    spec_lines_actions(spec_split(script, '\n'))
}

fn two_strings_exec(args: &Vec<Vec<char>>) -> (r: Option<(Vec<char>, Vec<char>)>)
    ensures
        match two_strings(views(args@)) {
            Some((a, b)) => r matches Some((x, y)) && x@ == a && y@ == b,
            None => r is None,
        },
{
    if args.len() != 2 {
        return None;
    }
    match (parse_string_arg(args[0].as_slice()), parse_string_arg(args[1].as_slice())) {
        (Some(a), Some(b)) => Some((a, b)),
        _ => None,
    }
}

fn string_and_two_u32_exec(args: &Vec<Vec<char>>) -> (r: Option<(Vec<char>, u32, u32)>)
    ensures
        match string_and_two_u32(views(args@)) {
            Some((a, b, c)) => r matches Some((x, y, z)) && x@ == a && y == b && z == c,
            None => r is None,
        },
{
    if args.len() != 3 {
        return None;
    }
    match (
        parse_string_arg(args[0].as_slice()),
        parse_u32_arg(args[1].as_slice()),
        parse_u32_arg(args[2].as_slice()),
    ) {
        (Some(a), Some(b), Some(c)) => Some((a, b, c)),
        _ => None,
    }
}

/// The action a trimmed line stands for.
fn line_action(t: &[char]) -> (r: Option<ScriptAction>)
    ensures
        match spec_line_action(t@) {
            Some(a) => r matches Some(x) && x@ == a,
            None => r is None,
        },
{
    let whole = chars_of("whole_image_update");
    if let Some(args) = parse_function_args(t, whole.as_slice()) {
        if let Some((device, image)) = two_strings_exec(&args) {
            return Some(
                ScriptAction::WholeImage {
                    device: string_from_chars(device.as_slice()),
                    image: string_from_chars(image.as_slice()),
                },
            );
        }
    }
    let backup = chars_of("block_Backup");
    if let Some(args) = parse_function_args(t, backup.as_slice()) {
        if let Some((device, offset, blocks)) = string_and_two_u32_exec(&args) {
            return Some(
                ScriptAction::BlockBackup {
                    device: string_from_chars(device.as_slice()),
                    offset,
                    blocks,
                },
            );
        }
    }
    let recovery = chars_of("block_Recovery");
    if let Some(args) = parse_function_args(t, recovery.as_slice()) {
        if let Some((device, offset, blocks)) = string_and_two_u32_exec(&args) {
            return Some(
                ScriptAction::BlockRecovery {
                    device: string_from_chars(device.as_slice()),
                    offset,
                    blocks,
                },
            );
        }
    }
    let extract = chars_of("package_extract_file");
    if let Some(args) = parse_function_args(t, extract.as_slice()) {
        if let Some((image, destination)) = two_strings_exec(&args) {
            return Some(
                ScriptAction::PackageExtract {
                    image: string_from_chars(image.as_slice()),
                    destination: string_from_chars(destination.as_slice()),
                },
            );
        }
    }
    None
}

/// A line that stands for no action whatever it holds: blank once trimmed,
/// or a comment starting with `#`.
pub open spec fn skipped_line(l: Seq<char>) -> bool {
    spec_trim(l).len() == 0 || spec_trim(l)[0] == '#'
}

/// The number of lines that are neither blank nor comments.
pub open spec fn command_lines(lines: Seq<Seq<char>>) -> nat
    decreases lines.len(),
{
    if lines.len() == 0 {
        0
    } else if skipped_line(lines.last()) {
        command_lines(lines.drop_last())
    } else {
        command_lines(lines.drop_last()) + 1
    }
}

/// `split_state` reads only the first `i` characters.
proof fn lemma_split_state_prefix(s: Seq<char>, t: Seq<char>, sep: char, i: nat)
    requires
        i <= s.len(),
        i <= t.len(),
        s.take(i as int) == t.take(i as int),
    ensures
        split_state(s, sep, i) == split_state(t, sep, i),
    decreases i,
{
    if i > 0 {
        assert(s.take(i - 1) =~= s.take(i as int).take(i - 1));
        assert(t.take(i - 1) =~= t.take(i as int).take(i - 1));
        assert(s[i - 1] == s.take(i as int)[i - 1]);
        assert(t[i - 1] == t.take(i as int)[i - 1]);
        lemma_split_state_prefix(s, t, sep, (i - 1) as nat);
    }
}

/// After a separator, splitting starts afresh on what follows it.
proof fn lemma_split_after_sep(x: Seq<char>, y: Seq<char>, sep: char, i: nat)
    requires
        i <= y.len(),
    ensures
        split_state(x.push(sep) + y, sep, (x.len() + 1 + i) as nat) == (
            spec_split(x, sep) + split_state(y, sep, i).0,
            split_state(y, sep, i).1,
        ),
    decreases i,
{
    let z = x.push(sep) + y;
    if i == 0 {
        assert(z.take(x.len() as int) =~= x.take(x.len() as int));
        lemma_split_state_prefix(z, x, sep, x.len());
        assert(z[x.len() as int] == sep);
        assert(spec_split(x, sep) + Seq::<Seq<char>>::empty() =~= spec_split(x, sep));
    } else {
        lemma_split_after_sep(x, y, sep, (i - 1) as nat);
        assert(z[x.len() + 1 + i - 1] == y[i - 1]);
        let d = split_state(y, sep, (i - 1) as nat).0;
        let c = split_state(y, sep, (i - 1) as nat).1;
        assert((spec_split(x, sep) + d).push(c) =~= spec_split(x, sep) + d.push(c));
    }
}

/// Splitting text joined at a separator splits each side.
proof fn lemma_split_concat(x: Seq<char>, y: Seq<char>, sep: char)
    ensures
        spec_split(x.push(sep) + y, sep) == spec_split(x, sep) + spec_split(y, sep),
{
    lemma_split_after_sep(x, y, sep, y.len());
    assert((x.push(sep) + y).len() == x.len() + 1 + y.len());
    let d = split_state(y, sep, y.len()).0;
    let c = split_state(y, sep, y.len()).1;
    assert((spec_split(x, sep) + d).push(c) =~= spec_split(x, sep) + d.push(c));
}

/// Text without a separator is a single piece.
proof fn lemma_split_single(x: Seq<char>, sep: char, i: nat)
    requires
        i <= x.len(),
        !x.contains(sep),
    ensures
        split_state(x, sep, i) == (Seq::<Seq<char>>::empty(), x.take(i as int)),
    decreases i,
{
    if i > 0 {
        lemma_split_single(x, sep, (i - 1) as nat);
        assert(x[i - 1] != sep) by {
            if x[i - 1] == sep {
                assert(x.contains(sep));
            }
        }
        assert(x.take(i - 1).push(x[i - 1]) =~= x.take(i as int));
    }
}

/// The actions of two runs of lines are those of the first followed by
/// those of the second.
proof fn lemma_lines_actions_concat(a: Seq<Seq<char>>, b: Seq<Seq<char>>)
    ensures
        spec_lines_actions(a + b) == spec_lines_actions(a) + spec_lines_actions(b),
    decreases b.len(),
{
    if b.len() == 0 {
        assert(a + b =~= a);
        assert(spec_lines_actions(a) + Seq::<ActionModel>::empty() =~= spec_lines_actions(a));
    } else {
        lemma_lines_actions_concat(a, b.drop_last());
        assert((a + b).drop_last() =~= a + b.drop_last());
        assert((a + b).last() == b.last());
        let pa = spec_lines_actions(a);
        let pb = spec_lines_actions(b.drop_last());
        let t = spec_trim(b.last());
        if !(t.len() == 0 || t[0] == '#') {
            match spec_line_action(t) {
                Some(x) => {
                    assert((pa + pb).push(x) =~= pa + pb.push(x));
                },
                None => {},
            }
        }
    }
}

/// A blank or comment line inserted as a whole line between two parts of
/// an updater script leaves its actions unchanged.
pub proof fn lemma_skipped_line_inserted(before: Seq<char>, line: Seq<char>, after: Seq<char>)
    requires
        !line.contains('\n'),
        skipped_line(line),
    ensures
        spec_script_actions(before.push('\n') + (line.push('\n') + after)) == spec_script_actions(
            before.push('\n') + after,
        ),
{
    lemma_split_concat(before, line.push('\n') + after, '\n');
    lemma_split_concat(line, after, '\n');
    lemma_split_concat(before, after, '\n');
    lemma_split_single(line, '\n', line.len());
    assert(line.take(line.len() as int) =~= line);
    assert(spec_split(line, '\n') == seq![line]);
    let a = spec_split(before, '\n');
    let b = spec_split(after, '\n');
    assert(a + (seq![line] + b) =~= (a + seq![line]) + b);
    lemma_lines_actions_concat(a + seq![line], b);
    lemma_lines_actions_concat(a, seq![line]);
    lemma_lines_actions_concat(a, b);
    assert(seq![line].drop_last() =~= Seq::<Seq<char>>::empty());
    assert(seq![line].last() == line);
    assert(spec_lines_actions(Seq::<Seq<char>>::empty()) == Seq::<ActionModel>::empty());
    assert(spec_lines_actions(seq![line]) =~= Seq::<ActionModel>::empty());
    assert(spec_lines_actions(a) + Seq::<ActionModel>::empty() =~= spec_lines_actions(a));
}

/// A blank or comment line put before an updater script leaves its actions
/// unchanged.
pub proof fn lemma_skipped_line_prepended(line: Seq<char>, script: Seq<char>)
    requires
        !line.contains('\n'),
        skipped_line(line),
    ensures
        spec_script_actions(line.push('\n') + script) == spec_script_actions(script),
{
    lemma_split_concat(line, script, '\n');
    lemma_split_single(line, '\n', line.len());
    assert(line.take(line.len() as int) =~= line);
    let b = spec_split(script, '\n');
    lemma_lines_actions_concat(seq![line], b);
    assert(seq![line].drop_last() =~= Seq::<Seq<char>>::empty());
    assert(seq![line].last() == line);
    assert(spec_lines_actions(Seq::<Seq<char>>::empty()) == Seq::<ActionModel>::empty());
    assert(spec_lines_actions(seq![line]) =~= Seq::<ActionModel>::empty());
    assert(Seq::<ActionModel>::empty() + spec_lines_actions(b) =~= spec_lines_actions(b));
}

/// An updater script yields at most one action per line that is neither
/// blank nor a comment.
pub proof fn lemma_at_most_one_action_per_line(lines: Seq<Seq<char>>)
    ensures
        spec_lines_actions(lines).len() <= command_lines(lines),
    decreases lines.len(),
{
    if lines.len() > 0 {
        lemma_at_most_one_action_per_line(lines.drop_last());
    }
}

/// Parses an updater script into its partition actions, in script order.
pub fn parse_updater_script(script: &str) -> (r: Vec<ScriptAction>)
    ensures
        action_models(r@) == spec_script_actions(script@),
{
    let chars = chars_of(script);
    let lines = split_char(chars.as_slice(), '\n');
    let mut actions: Vec<ScriptAction> = Vec::new();
    let mut i: usize = 0;
    while i < lines.len()
        invariant
            i <= lines@.len(),
            views(lines@) == spec_split(script@, '\n'),
            action_models(actions@) == spec_lines_actions(views(lines@).take(i as int)),
        decreases lines@.len() - i,
    {
        let t = trim(lines[i].as_slice());
        let ghost a0 = actions@;
        assert(views(lines@).take(i + 1).drop_last() =~= views(lines@).take(i as int));
        assert(views(lines@).take(i + 1).last() == lines@[i as int]@);
        if t.len() != 0 && t[0] != '#' {
            if let Some(a) = line_action(t.as_slice()) {
                actions.push(a);
                assert(action_models(actions@) =~= action_models(a0).push(a@));
            }
        }
        i += 1;
    }
    assert(views(lines@).take(i as int) =~= views(lines@));
    actions
}

// ---------------------------------------------------------------------------
// Generated files

/// `v` with every `'` replaced by `'\''`.
pub open spec fn quote_body(v: Seq<char>) -> Seq<char>
    decreases v.len(),
{
    if v.len() == 0 {
        Seq::empty()
    } else if v.last() == '\'' {
        quote_body(v.drop_last()) + seq!['\'', '\\', '\'', '\'']
    } else {
        quote_body(v.drop_last()).push(v.last())
    }
}

/// `v` as a single-quoted shell word.
pub open spec fn spec_shell_single_quote(v: Seq<char>) -> Seq<char> {
    seq!['\''] + quote_body(v) + seq!['\'']
}

/// Quotes `value` for a POSIX shell: wraps it in single quotes, writing each
/// single quote inside as `'\''`.
pub fn shell_single_quote(value: &[char]) -> (r: Vec<char>)
    ensures
        r@ == spec_shell_single_quote(value@),
{
    let mut out: Vec<char> = Vec::new();
    out.push('\'');
    let mut i: usize = 0;
    while i < value.len()
        invariant
            i <= value@.len(),
            out@ == seq!['\''] + quote_body(value@.take(i as int)),
        decreases value@.len() - i,
    {
        let ghost o0 = out@;
        assert(value@.take(i + 1).drop_last() =~= value@.take(i as int));
        assert(value@.take(i + 1).last() == value@[i as int]);
        if value[i] == '\'' {
            out.push('\'');
            out.push('\\');
            out.push('\'');
            out.push('\'');
            assert(out@ =~= seq!['\''] + quote_body(value@.take(i + 1)));
        } else {
            out.push(value[i]);
            assert(out@ =~= seq!['\''] + quote_body(value@.take(i + 1)));
        }
        i += 1;
    }
    assert(value@.take(i as int) =~= value@);
    out.push('\'');
    assert(out@ =~= spec_shell_single_quote(value@));
    out
}

/// The last path component that names something, walking back over empty
/// and `.` components.
pub open spec fn last_named(segs: Seq<Seq<char>>) -> Option<Seq<char>>
    decreases segs.len(),
{
    if segs.len() == 0 {
        None
    } else if segs.last().len() == 0 || segs.last() == seq!['.'] {
        last_named(segs.drop_last())
    } else {
        Some(segs.last())
    }
}

/// The file name of a `/`-separated path (`Path::file_name`), or
/// `dump.img` when the path has none (it is empty, a root, or ends in `..`).
pub open spec fn spec_basename(path: Seq<char>) -> Seq<char> {
    match last_named(spec_split(path, '/')) {
        Some(n) => if n == seq!['.', '.'] {
            "dump.img"@
        } else {
            n
        },
        None => "dump.img"@,
    }
}

/// The file name of `path`, falling back to `dump.img`.
pub fn basename(path: &[char]) -> (r: Vec<char>)
    ensures
        r@ == spec_basename(path@),
{
    let segs = split_char(path, '/');
    let mut k: usize = segs.len();
    assert(views(segs@).take(k as int) =~= views(segs@));
    while k > 0 && (segs[k - 1].len() == 0 || (segs[k - 1].len() == 1 && segs[k - 1][0] == '.'))
        invariant
            k <= segs@.len(),
            last_named(views(segs@)) == last_named(views(segs@).take(k as int)),
        decreases k,
    {
        assert(views(segs@).take(k as int).drop_last() =~= views(segs@).take(k - 1));
        assert(views(segs@).take(k as int).last() == segs@[k - 1]@);
        assert(segs@[k - 1]@.len() == 0 || segs@[k - 1]@ =~= seq!['.']);
        k -= 1;
    }
    if k == 0 {
        assert(views(segs@).take(0) =~= Seq::<Seq<char>>::empty());
        return chars_of("dump.img");
    }
    assert(views(segs@).take(k as int).last() == segs@[k - 1]@);
    assert(!(segs@[k - 1]@.len() == 0 || segs@[k - 1]@ == seq!['.'])) by {
        if segs@[k - 1]@ == seq!['.'] {
            assert(segs@[k - 1]@.len() == 1 && segs@[k - 1]@[0] == '.');
        }
    }
    let last = &segs[k - 1];
    if last.len() == 2 && last[0] == '.' && last[1] == '.' {
        assert(last@ =~= seq!['.', '.']);
        return chars_of("dump.img");
    }
    assert(last@ != seq!['.', '.']) by {
        if last@ == seq!['.', '.'] {
            assert(last@.len() == 2 && last@[0] == '.' && last@[1] == '.');
        }
    }
    char_range(last.as_slice(), 0, last.len())
}

/// The text of a file made of `lines`, each ended by a newline.
pub open spec fn lines_text(lines: Seq<Seq<char>>) -> Seq<char>
    decreases lines.len(),
{
    if lines.len() == 0 {
        Seq::empty()
    } else {
        lines_text(lines.drop_last()) + lines.last().push('\n')
    }
}

/// The text of two runs of lines is the text of the first followed by
/// that of the second.
pub proof fn lemma_lines_text_concat(a: Seq<Seq<char>>, b: Seq<Seq<char>>)
    ensures
        lines_text(a + b) == lines_text(a) + lines_text(b),
    decreases b.len(),
{
    if b.len() == 0 {
        assert(a + b =~= a);
    } else {
        lemma_lines_text_concat(a, b.drop_last());
        assert((a + b).drop_last() =~= a + b.drop_last());
    }
}

/// Appends `line` and a newline to `out`.
pub(crate) fn emit(out: &mut Vec<char>, line: &[char])
    ensures
        final(out)@ == old(out)@ + line@.push('\n'),
{
    push_all(out, line);
    out.push('\n');
}

/// Appends `lines`, each with a newline, to `out`.
pub(crate) fn emit_lines(out: &mut Vec<char>, lines: &Vec<Vec<char>>)
    ensures
        final(out)@ == old(out)@ + lines_text(views(lines@)),
{
    let ghost o0 = out@;
    let mut i: usize = 0;
    while i < lines.len()
        invariant
            i <= lines@.len(),
            out@ == o0 + lines_text(views(lines@).take(i as int)),
        decreases lines@.len() - i,
    {
        emit(out, lines[i].as_slice());
        assert(views(lines@).take(i + 1).drop_last() =~= views(lines@).take(i as int));
        i += 1;
    }
    assert(views(lines@).take(i as int) =~= views(lines@));
}

/// The dumper script lines of one action.
pub open spec fn spec_action_dump_lines(a: ActionModel) -> Seq<Seq<char>> {
    match a {
        ActionModel::WholeImage { device, image } => seq![
            "echo \"Dumping "@ + spec_shell_single_quote(device) + " to "@
                + spec_shell_single_quote(image) + "\""@,
            "dd if="@ + spec_shell_single_quote(device) + " of=\"$OUT/"@
                + spec_shell_single_quote(spec_basename(image)) + "\" bs=1M conv=fsync"@,
            Seq::empty(),
        ],
        ActionModel::BlockBackup { device, offset, blocks } => seq![
            "# block_Backup "@ + device + " offset="@ + spec_dec(offset as nat) + " blocks="@
                + spec_dec(blocks as nat),
        ],
        ActionModel::BlockRecovery { device, offset, blocks } => seq![
            "# block_Recovery "@ + device + " offset="@ + spec_dec(offset as nat) + " blocks="@
                + spec_dec(blocks as nat),
        ],
        ActionModel::PackageExtract { image, destination } => seq![
            "# Optional package_extract_file payload: "@ + destination,
            "if [ -f "@ + spec_shell_single_quote(destination) + " ]; then dd if="@
                + spec_shell_single_quote(destination) + " of=\"$OUT/"@
                + spec_shell_single_quote(spec_basename(destination))
                + "\" bs=1M conv=fsync; fi"@,
            Seq::empty(),
        ],
    }
}

/// The dumper script lines of all `actions`, in order.
pub open spec fn spec_actions_dump_lines(actions: Seq<ActionModel>) -> Seq<Seq<char>>
    decreases actions.len(),
{
    if actions.len() == 0 {
        Seq::empty()
    } else {
        spec_actions_dump_lines(actions.drop_last()) + spec_action_dump_lines(actions.last())
    }
}

/// Whether some action dumps a whole image.
pub open spec fn has_whole_image(actions: Seq<ActionModel>) -> bool {
    exists|i: int| 0 <= i < actions.len() && #[trigger] actions[i] is WholeImage
}

/// The lines of `dump_partitions.sh` for `actions`.
pub open spec fn spec_dumper_lines(actions: Seq<ActionModel>) -> Seq<Seq<char>> {
    seq![
        "#!/system/bin/sh"@,
        "set -eu"@,
        "OUT=\"/sdcard/unixtract_dump\""@,
        "mkdir -p \"$OUT\""@,
        Seq::empty(),
    ] + spec_actions_dump_lines(actions) + (if has_whole_image(actions) {
        Seq::empty()
    } else {
        seq!["echo \"No whole_image_update partitions found in updater-script.\""@]
    }) + seq!["sync"@, "echo \"Done: $OUT\""@]
}

fn str_line(s: &str) -> (r: Vec<char>)
    ensures
        r@ == s@,
{
    chars_of(s)
}

/// Builds the dumper script lines of one action.
fn action_dump_lines(a: &ScriptAction) -> (r: Vec<Vec<char>>)
    ensures
        views(r@) == spec_action_dump_lines(a@),
{
    let mut lines: Vec<Vec<char>> = Vec::new();
    match a {
        ScriptAction::WholeImage { device, image } => {
            let dev = chars_of(device.as_str());
            let img = chars_of(image.as_str());
            let qd = shell_single_quote(dev.as_slice());
            let qi = shell_single_quote(img.as_slice());
            let base = basename(img.as_slice());
            let qb = shell_single_quote(base.as_slice());
            let mut l1: Vec<char> = Vec::new();
            push_str(&mut l1, "echo \"Dumping ");
            push_all(&mut l1, qd.as_slice());
            push_str(&mut l1, " to ");
            push_all(&mut l1, qi.as_slice());
            push_str(&mut l1, "\"");
            let mut l2: Vec<char> = Vec::new();
            push_str(&mut l2, "dd if=");
            push_all(&mut l2, qd.as_slice());
            push_str(&mut l2, " of=\"$OUT/");
            push_all(&mut l2, qb.as_slice());
            push_str(&mut l2, "\" bs=1M conv=fsync");
            lines.push(l1);
            lines.push(l2);
            lines.push(Vec::new());
        },
        ScriptAction::BlockBackup { device, offset, blocks } => {
            let mut l: Vec<char> = Vec::new();
            push_str(&mut l, "# block_Backup ");
            push_str(&mut l, device.as_str());
            push_str(&mut l, " offset=");
            let o = dec(*offset as u64);
            push_all(&mut l, o.as_slice());
            push_str(&mut l, " blocks=");
            let b = dec(*blocks as u64);
            push_all(&mut l, b.as_slice());
            lines.push(l);
        },
        ScriptAction::BlockRecovery { device, offset, blocks } => {
            let mut l: Vec<char> = Vec::new();
            push_str(&mut l, "# block_Recovery ");
            push_str(&mut l, device.as_str());
            push_str(&mut l, " offset=");
            let o = dec(*offset as u64);
            push_all(&mut l, o.as_slice());
            push_str(&mut l, " blocks=");
            let b = dec(*blocks as u64);
            push_all(&mut l, b.as_slice());
            lines.push(l);
        },
        ScriptAction::PackageExtract { image: _, destination } => {
            let dst = chars_of(destination.as_str());
            let qd = shell_single_quote(dst.as_slice());
            let base = basename(dst.as_slice());
            let qb = shell_single_quote(base.as_slice());
            let mut l1: Vec<char> = Vec::new();
            push_str(&mut l1, "# Optional package_extract_file payload: ");
            push_all(&mut l1, dst.as_slice());
            let mut l2: Vec<char> = Vec::new();
            push_str(&mut l2, "if [ -f ");
            push_all(&mut l2, qd.as_slice());
            push_str(&mut l2, " ]; then dd if=");
            push_all(&mut l2, qd.as_slice());
            push_str(&mut l2, " of=\"$OUT/");
            push_all(&mut l2, qb.as_slice());
            push_str(&mut l2, "\" bs=1M conv=fsync; fi");
            lines.push(l1);
            lines.push(l2);
            lines.push(Vec::new());
        },
    }
    assert(views(lines@) =~= spec_action_dump_lines(a@));
    lines
}

/// The text of `dump_partitions.sh`: a shell script that dumps each whole
/// image and package payload named by `actions` with `dd`, and records the
/// block operations as comments.
pub fn dumper_script(actions: &Vec<ScriptAction>) -> (r: Vec<char>)
    ensures
        r@ == lines_text(spec_dumper_lines(action_models(actions@))),
{
    let mut out: Vec<char> = Vec::new();
    let mut header: Vec<Vec<char>> = Vec::new();
    header.push(str_line("#!/system/bin/sh"));
    header.push(str_line("set -eu"));
    header.push(str_line("OUT=\"/sdcard/unixtract_dump\""));
    header.push(str_line("mkdir -p \"$OUT\""));
    header.push(Vec::new());
    emit_lines(&mut out, &header);
    let ghost models = action_models(actions@);
    let mut whole_image_count: usize = 0;
    let mut i: usize = 0;
    while i < actions.len()
        invariant
            i <= actions@.len(),
            models == action_models(actions@),
            whole_image_count <= i,
            (whole_image_count == 0) == !has_whole_image(models.take(i as int)),
            out@ == lines_text(views(header@)) + lines_text(
                spec_actions_dump_lines(models.take(i as int)),
            ),
        decreases actions@.len() - i,
    {
        proof {
            assert forall|j: int| 0 <= j < i implies #[trigger] models.take(i + 1)[j] == models.take(
                i as int,
            )[j] by {}
            assert(models.take(i + 1)[i as int] == models[i as int]);
        }
        if let ScriptAction::WholeImage { .. } = &actions[i] {
            whole_image_count += 1;
            assert(models.take(i + 1)[i as int] is WholeImage);
            assert(has_whole_image(models.take(i + 1)));
        } else {
            assert(!(models.take(i + 1)[i as int] is WholeImage));
            assert(has_whole_image(models.take(i + 1)) == has_whole_image(models.take(i as int)))
                by {
                if has_whole_image(models.take(i + 1)) {
                    let j = choose|j: int|
                        0 <= j < models.take(i + 1).len() && #[trigger] models.take(i + 1)[j] is WholeImage;
                    assert(j < i);
                    assert(models.take(i as int)[j] is WholeImage);
                }
                if has_whole_image(models.take(i as int)) {
                    let j = choose|j: int|
                        0 <= j < models.take(i as int).len() && #[trigger] models.take(i as int)[j] is WholeImage;
                    assert(models.take(i + 1)[j] is WholeImage);
                }
            }
        }
        let lines = action_dump_lines(&actions[i]);
        let ghost o0 = out@;
        emit_lines(&mut out, &lines);
        proof {
            assert(models.take(i + 1).drop_last() =~= models.take(i as int));
            assert(models.take(i + 1).last() == actions@[i as int]@);
            lemma_lines_text_concat(
                spec_actions_dump_lines(models.take(i as int)),
                spec_action_dump_lines(actions@[i as int]@),
            );
        }
        i += 1;
    }
    assert(models.take(i as int) =~= models);
    let mut footer: Vec<Vec<char>> = Vec::new();
    if whole_image_count == 0 {
        footer.push(str_line("echo \"No whole_image_update partitions found in updater-script.\""));
    }
    footer.push(str_line("sync"));
    footer.push(str_line("echo \"Done: $OUT\""));
    emit_lines(&mut out, &footer);
    proof {
        let h = views(header@);
        let body = spec_actions_dump_lines(models);
        let f = views(footer@);
        assert(h =~= seq![
            "#!/system/bin/sh"@,
            "set -eu"@,
            "OUT=\"/sdcard/unixtract_dump\""@,
            "mkdir -p \"$OUT\""@,
            Seq::empty(),
        ]);
        assert(f =~= (if has_whole_image(models) {
            Seq::empty()
        } else {
            seq!["echo \"No whole_image_update partitions found in updater-script.\""@]
        }) + seq!["sync"@, "echo \"Done: $OUT\""@]);
        lemma_lines_text_concat(h, body);
        lemma_lines_text_concat(h + body, f);
        assert(spec_dumper_lines(models) =~= h + body + f);
    }
    out
}

/// The partition map row of one action.
pub open spec fn spec_map_row(a: ActionModel) -> Seq<char> {
    match a {
        ActionModel::WholeImage { device, image } => "whole_image\t"@ + device + "\t"@ + image
            + "\t\t"@,
        ActionModel::BlockBackup { device, offset, blocks } => "block_backup\t"@ + device
            + "\t\t"@ + spec_dec(offset as nat) + "\t"@ + spec_dec(blocks as nat),
        ActionModel::BlockRecovery { device, offset, blocks } => "block_recovery\t"@ + device
            + "\t\t"@ + spec_dec(offset as nat) + "\t"@ + spec_dec(blocks as nat),
        ActionModel::PackageExtract { image, destination } => "package_extract\t\t"@ + image
            + "\t\t"@ + destination,
    }
}

/// The lines of `partitions.tsv` for `actions`.
pub open spec fn spec_partition_map_lines(actions: Seq<ActionModel>) -> Seq<Seq<char>> {
    seq!["operation\tdevice\timage\toffset\tblocks"@] + Seq::new(
        actions.len(),
        |i: int| spec_map_row(actions[i]),
    )
}

fn map_row(a: &ScriptAction) -> (r: Vec<char>)
    ensures
        r@ == spec_map_row(a@),
{
    let mut l: Vec<char> = Vec::new();
    match a {
        ScriptAction::WholeImage { device, image } => {
            push_str(&mut l, "whole_image\t");
            push_str(&mut l, device.as_str());
            push_str(&mut l, "\t");
            push_str(&mut l, image.as_str());
            push_str(&mut l, "\t\t");
        },
        ScriptAction::BlockBackup { device, offset, blocks } => {
            push_str(&mut l, "block_backup\t");
            push_str(&mut l, device.as_str());
            push_str(&mut l, "\t\t");
            let o = dec(*offset as u64);
            push_all(&mut l, o.as_slice());
            push_str(&mut l, "\t");
            let b = dec(*blocks as u64);
            push_all(&mut l, b.as_slice());
        },
        ScriptAction::BlockRecovery { device, offset, blocks } => {
            push_str(&mut l, "block_recovery\t");
            push_str(&mut l, device.as_str());
            push_str(&mut l, "\t\t");
            let o = dec(*offset as u64);
            push_all(&mut l, o.as_slice());
            push_str(&mut l, "\t");
            let b = dec(*blocks as u64);
            push_all(&mut l, b.as_slice());
        },
        ScriptAction::PackageExtract { image, destination } => {
            push_str(&mut l, "package_extract\t\t");
            push_str(&mut l, image.as_str());
            push_str(&mut l, "\t\t");
            push_str(&mut l, destination.as_str());
        },
    }
    assert(l@ =~= spec_map_row(a@));
    l
}

/// The text of `partitions.tsv`: a header row, then one tab-separated row
/// per action.
pub fn partition_map(actions: &Vec<ScriptAction>) -> (r: Vec<char>)
    ensures
        r@ == lines_text(spec_partition_map_lines(action_models(actions@))),
{
    let mut rows: Vec<Vec<char>> = Vec::new();
    rows.push(str_line("operation\tdevice\timage\toffset\tblocks"));
    let ghost models = action_models(actions@);
    let mut i: usize = 0;
    while i < actions.len()
        invariant
            i <= actions@.len(),
            models == action_models(actions@),
            views(rows@) == spec_partition_map_lines(models.take(i as int)),
        decreases actions@.len() - i,
    {
        let row = map_row(&actions[i]);
        let ghost r0 = views(rows@);
        rows.push(row);
        proof {
            assert(views(rows@) =~= r0.push(row@));
            assert(models.take(i + 1)[i as int] == actions@[i as int]@);
            assert forall|j: int| 0 <= j < i implies #[trigger] models.take(i + 1)[j] == models.take(
                i as int,
            )[j] by {}
            assert(views(rows@) =~= spec_partition_map_lines(models.take(i + 1)));
        }
        i += 1;
    }
    assert(models.take(i as int) =~= models);
    let mut out: Vec<char> = Vec::new();
    emit_lines(&mut out, &rows);
    out
}

} // verus!
