//! The `gooir` command grammar: the usage text, the closed flag grammars of
//! `compile` and `build`, the positive resource bounds they carry, and the
//! separation of package flags from legacy installation flags.

use vstd::prelude::*;
use crate::identity::{ExactId, PortName, parse_id, valid_port_name};
use crate::text::{all_digits, digits_value, is_ascii_digit, lemma_digits_grow, chars_of, char_is_control, char_is_whitespace, is_control, is_unicode_whitespace, owned, starts_with, str_eq, str_starts_with, debug_escaped, escape_debug};

verus! {

/// One decimal digit.
pub open spec fn digit_char(d: nat) -> char {
    ((48 + d) as u32) as char
}

/// The decimal text of a number, as `format!` writes it.
pub open spec fn decimal(n: nat) -> Seq<char>
    decreases n,
{
    if n < 10 {
        seq![digit_char(n)]
    } else {
        decimal(n / 10).push(digit_char(n % 10))
    }
}

fn push_decimal(out: &mut String, n: u64)
    ensures
        final(out)@ == old(out)@ + decimal(n as nat),
    decreases n,
{
    if n >= 10 {
        push_decimal(out, n / 10);
    }
    let d = (n % 10) as u8;
    let c = (48u8 + d) as char;
    let mut buf: Vec<char> = Vec::new();
    buf.push(c);
    let ghost before = out@;
    let piece = crate::text::string_from_chars(buf.as_slice());
    out.append(piece.as_str());
    assert(piece@ =~= seq![digit_char((n % 10) as nat)]);
    if n >= 10 {
        assert(out@ =~= before + seq![digit_char((n % 10) as nat)]);
    }
}

/// The decimal text of a number.
pub fn decimal_string(n: u64) -> (r: String)
    ensures
        r@ == decimal(n as nat),
{
    let mut s = String::new();
    push_decimal(&mut s, n);
    assert(s@ =~= decimal(n as nat));
    s
}

/// The unsigned integer a text denotes, as `str::parse` reads it: one
/// optional `+`, then one or more ASCII digits, and a value no larger
/// than `max`.
pub open spec fn parse_unsigned(s: Seq<char>, max: nat) -> Option<nat> {
    if unsigned_body(s).len() > 0 && all_digits(unsigned_body(s)) && digits_value(unsigned_body(s)) <= max {
        Some(digits_value(unsigned_body(s)))
    } else {
        None
    }
}

/// The text after one optional leading `+`.
pub open spec fn unsigned_body(s: Seq<char>) -> Seq<char> {
    if s.len() > 0 && s[0] == '+' {
        s.drop_first()
    } else {
        s
    }
}

/// Reads an unsigned integer no larger than `max`.
pub fn parse_unsigned_text(text: &str, max: u64) -> (r: Option<u64>)
    ensures
        r matches Some(n) ==> parse_unsigned(text@, max as nat) == Some(n as nat),
        r is None ==> parse_unsigned(text@, max as nat) is None,
{
    let s = chars_of(text);
    let start: usize = if s.len() > 0 && s[0] == '+' { 1 } else { 0 };
    let ghost body = if s@.len() > 0 && s@[0] == '+' { s@.drop_first() } else { s@ };
    assert(body =~= s@.subrange(start as int, s@.len() as int));
    if start >= s.len() {
        return None;
    }
    let mut acc: u64 = 0;
    let mut i: usize = start;
    while i < s.len()
        invariant
            start <= i <= s.len(),
            s@ == text@,
            body == s@.subrange(start as int, s@.len() as int),
            body == unsigned_body(text@),
            forall|k: int| start <= k < i ==> is_ascii_digit(#[trigger] s@[k]),
            acc as nat == digits_value(s@.subrange(start as int, i as int)),
            acc <= max,
        decreases s.len() - i,
    {
        let c = s[i];
        if !('0' <= c && c <= '9') {
            assert(body[(i - start) as int] == s@[i as int]);
            assert(!is_ascii_digit(body[(i - start) as int]));
            return None;
        }
        let d = (c as u32 - 48) as u64;
        let ghost prefix = s@.subrange(start as int, i + 1);
        assert(prefix.drop_last() =~= s@.subrange(start as int, i as int));
        if d > max || acc > (max - d) / 10 {
            proof {
                assert(digits_value(prefix) == acc * 10 + d);
                if d <= max {
                    assert(acc * 10 + d > max) by (nonlinear_arith)
                        requires
                            acc > (max - d) / 10,
                            d <= max,
                    ;
                }
                if all_digits(body) {
                    lemma_digits_grow(body, i + 1 - start);
                    assert(body.subrange(0, i + 1 - start) =~= prefix);
                }
            }
            return None;
        }
        assert(acc * 10 + d <= max) by (nonlinear_arith)
            requires
                acc <= (max - d) / 10,
                d <= max,
        ;
        acc = acc * 10 + d;
        i = i + 1;
    }
    assert(s@.subrange(start as int, s@.len() as int) =~= body);
    Some(acc)
}


/// The views of a sequence of strings.
pub open spec fn str_views(v: Seq<String>) -> Seq<Seq<char>> {
    Seq::new(v.len(), |i: int| v[i]@)
}

pub open spec fn opt_str_view(o: Option<String>) -> Option<Seq<char>> {
    match o {
        Some(s) => Some(s@),
        None => None,
    }
}

pub open spec fn opt_usize_view(o: Option<usize>) -> Option<nat> {
    match o {
        Some(n) => Some(n as nat),
        None => None,
    }
}

pub open spec fn opt_u64_view(o: Option<u64>) -> Option<nat> {
    match o {
        Some(n) => Some(n as nat),
        None => None,
    }
}

/// The value after a flag: the next argument, unless there is none or it
/// is itself a flag.
pub open spec fn flag_value(args: Seq<Seq<char>>, i: int) -> Option<Seq<char>> {
    if 0 <= i && i + 1 < args.len() && !starts_with(args[i + 1], "--"@) {
        Some(args[i + 1])
    } else {
        None
    }
}

pub open spec fn requires_value_msg(command: Seq<char>, flag: Seq<char>) -> Seq<char> {
    "gooir "@ + command + " flag "@ + flag + " requires a value"@
}

pub open spec fn once_msg(command: Seq<char>, flag: Seq<char>) -> Seq<char> {
    "gooir "@ + command + " accepts "@ + flag + " exactly once"@
}

pub open spec fn required_msg(command: Seq<char>, flag: Seq<char>) -> Seq<char> {
    "gooir "@ + command + " requires "@ + flag
}

pub open spec fn slot_msg(command: Seq<char>, resource: Seq<char>, limit: nat) -> Seq<char> {
    "gooir "@ + command + " "@ + resource + " exceed limit "@ + decimal(limit)
}

pub open spec fn unknown_flag_msg(command: Seq<char>, argument: Seq<char>) -> Seq<char> {
    "unknown gooir "@ + command + " flag `"@ + argument + "`"@
}

pub open spec fn extra_argument_msg(command: Seq<char>, argument: Seq<char>) -> Seq<char> {
    "unexpected extra gooir "@ + command + " argument `"@ + argument + "`"@
}

pub open spec fn limits_msg(command: Seq<char>) -> Seq<char> {
    "gooir "@ + command + " resource limits must be positive"@
}

pub open spec fn documents_msg(limit: nat) -> Seq<char> {
    "gooir compile documents exceed aggregate count limit "@ + decimal(limit)
}

/// A positive bound read from a flag's value.
pub open spec fn positive_value(flag: Seq<char>, value: Seq<char>, max: nat) -> Result<nat, Seq<char>> {
    match parse_unsigned(value, max) {
        None => Err(flag + " must be a positive integer"@),
        Some(n) => if n == 0 {
            Err(flag + " must be positive"@)
        } else {
            Ok(n)
        },
    }
}

fn requires_value_error(command: &str, flag: &str) -> (r: String)
    ensures
        r@ == requires_value_msg(command@, flag@),
{
    let mut m = owned("gooir ");
    m.append(command);
    m.append(" flag ");
    m.append(flag);
    m.append(" requires a value");
    m
}

fn once_error(command: &str, flag: &str) -> (r: String)
    ensures
        r@ == once_msg(command@, flag@),
{
    let mut m = owned("gooir ");
    m.append(command);
    m.append(" accepts ");
    m.append(flag);
    m.append(" exactly once");
    m
}

fn required_error(command: &str, flag: &str) -> (r: String)
    ensures
        r@ == required_msg(command@, flag@),
{
    let mut m = owned("gooir ");
    m.append(command);
    m.append(" requires ");
    m.append(flag);
    m
}

fn slot_error(command: &str, resource: &str, limit: usize) -> (r: String)
    ensures
        r@ == slot_msg(command@, resource@, limit as nat),
{
    let mut m = owned("gooir ");
    m.append(command);
    m.append(" ");
    m.append(resource);
    m.append(" exceed limit ");
    let d = decimal_string(limit as u64);
    m.append(d.as_str());
    m
}

fn unknown_flag_error(command: &str, argument: &str) -> (r: String)
    ensures
        r@ == unknown_flag_msg(command@, argument@),
{
    let mut m = owned("unknown gooir ");
    m.append(command);
    m.append(" flag `");
    m.append(argument);
    m.append("`");
    m
}

fn extra_argument_error(command: &str, argument: &str) -> (r: String)
    ensures
        r@ == extra_argument_msg(command@, argument@),
{
    let mut m = owned("unexpected extra gooir ");
    m.append(command);
    m.append(" argument `");
    m.append(argument);
    m.append("`");
    m
}

/// Reads a positive `usize` bound for a flag.
pub fn positive_usize_value(flag: &str, value: &str) -> (r: Result<usize, String>)
    ensures
        r matches Ok(n) ==> positive_value(flag@, value@, usize::MAX as nat) == Ok::<nat, Seq<char>>(n as nat),
        r matches Err(e) ==> positive_value(flag@, value@, usize::MAX as nat) == Err::<nat, Seq<char>>(e@),
{
    match parse_unsigned_text(value, usize::MAX as u64) {
        None => {
            let mut m = owned(flag);
            m.append(" must be a positive integer");
            Err(m)
        },
        Some(n) => {
            if n == 0 {
                let mut m = owned(flag);
                m.append(" must be positive");
                Err(m)
            } else {
                Ok(n as usize)
            }
        },
    }
}

/// Reads a positive `u64` bound for a flag.
pub fn positive_u64_value(flag: &str, value: &str) -> (r: Result<u64, String>)
    ensures
        r matches Ok(n) ==> positive_value(flag@, value@, u64::MAX as nat) == Ok::<nat, Seq<char>>(n as nat),
        r matches Err(e) ==> positive_value(flag@, value@, u64::MAX as nat) == Err::<nat, Seq<char>>(e@),
{
    match parse_unsigned_text(value, u64::MAX) {
        None => {
            let mut m = owned(flag);
            m.append(" must be a positive integer");
            Err(m)
        },
        Some(n) => {
            if n == 0 {
                let mut m = owned(flag);
                m.append(" must be positive");
                Err(m)
            } else {
                Ok(n)
            }
        },
    }
}

fn flag_value_at(args: &[String], i: usize) -> (r: Option<String>)
    requires
        i < args.len(),
    ensures
        r matches Some(s) ==> flag_value(str_views(args@), i as int) == Some(s@),
        r is None ==> flag_value(str_views(args@), i as int) is None,
{
    if i + 1 < args.len() {
        let next = &args[i + 1];
        if str_starts_with(next.as_str(), "--") {
            None
        } else {
            Some(next.clone())
        }
    } else {
        None
    }
}

/// Resource bounds of the `compile` and `build` commands.
#[derive(Clone, Copy, Debug)]
pub struct CompileInputLimits {
    pub max_packages: usize,
    pub max_observations: usize,
    pub max_attesters: usize,
    pub max_documents: usize,
    pub max_document_bytes: u64,
    pub max_total_document_bytes: u64,
}

pub open spec fn limits_positive(l: CompileInputLimits) -> bool {
    l.max_packages > 0 && l.max_observations > 0 && l.max_attesters > 0 && l.max_documents > 0
        && l.max_document_bytes > 0 && l.max_total_document_bytes > 0
}

/// Installed packages a compile may name.
pub const MAX_COMPILE_PACKAGES: usize = 4096;

/// Bound of one policy, observation or attester document, in bytes.
pub const MAX_COMPILE_DOCUMENT_BYTES: u64 = 16777216;

/// Bound of all such documents together, in bytes.
pub const MAX_COMPILE_TOTAL_DOCUMENT_BYTES: u64 = 67108864;

/// Request inputs and attesters one derivation may carry.
pub const MAX_REQUEST_ITEMS: usize = 4096;

/// The bounds the command line uses: one document slot for each input and
/// attester, plus the policy.
pub open spec fn cli_limits() -> CompileInputLimits {
    CompileInputLimits {
        max_packages: MAX_COMPILE_PACKAGES,
        max_observations: MAX_REQUEST_ITEMS,
        max_attesters: MAX_REQUEST_ITEMS,
        max_documents: (MAX_REQUEST_ITEMS + MAX_REQUEST_ITEMS + 1) as usize,
        max_document_bytes: MAX_COMPILE_DOCUMENT_BYTES,
        max_total_document_bytes: MAX_COMPILE_TOTAL_DOCUMENT_BYTES,
    }
}

/// The bounds the command line uses.
pub fn compile_input_limits() -> (l: CompileInputLimits)
    ensures
        l == cli_limits(),
        l.max_packages == MAX_COMPILE_PACKAGES,
        l.max_observations == MAX_REQUEST_ITEMS,
        l.max_attesters == MAX_REQUEST_ITEMS,
        l.max_documents == MAX_REQUEST_ITEMS + MAX_REQUEST_ITEMS + 1,
        l.max_document_bytes == MAX_COMPILE_DOCUMENT_BYTES,
        l.max_total_document_bytes == MAX_COMPILE_TOTAL_DOCUMENT_BYTES,
        limits_positive(l),
{
    CompileInputLimits {
        max_packages: MAX_COMPILE_PACKAGES,
        max_observations: MAX_REQUEST_ITEMS,
        max_attesters: MAX_REQUEST_ITEMS,
        max_documents: MAX_REQUEST_ITEMS + MAX_REQUEST_ITEMS + 1,
        max_document_bytes: MAX_COMPILE_DOCUMENT_BYTES,
        max_total_document_bytes: MAX_COMPILE_TOTAL_DOCUMENT_BYTES,
    }
}

impl CompileInputLimits {
    /// Refuses any zero bound, naming the command.
    pub fn validate_for(self, command: &str) -> (r: Result<(), String>)
        ensures
            r is Ok <==> limits_positive(self),
            r matches Err(e) ==> e@ == limits_msg(command@),
    {
        if self.max_packages == 0 || self.max_observations == 0 || self.max_attesters == 0 || self.max_documents
            == 0 || self.max_document_bytes == 0 || self.max_total_document_bytes == 0 {
            let mut m = owned("gooir ");
            m.append(command);
            m.append(" resource limits must be positive");
            return Err(m);
        }
        Ok(())
    }

    /// The `compile` form of the bound check.
    pub fn validate(self) -> (r: Result<(), String>)
        ensures
            r is Ok <==> limits_positive(self),
            r matches Err(e) ==> e@ == limits_msg("compile"@),
    {
        self.validate_for("compile")
    }
}

/// Positive bounds on one local stdio execution.
#[derive(Clone, Copy, Debug)]
pub struct StdioLimits {
    pub max_stdin_bytes: usize,
    pub max_stdout_bytes: usize,
    pub max_stderr_bytes: usize,
    pub timeout_milliseconds: u64,
}


/// What the `compile` flags have collected so far.
pub struct CompileScan {
    pub packages: Seq<Seq<char>>,
    pub policy: Option<Seq<char>>,
    pub observations: Seq<Seq<char>>,
    pub attesters: Seq<Seq<char>>,
    pub stdin_bytes: Option<nat>,
    pub stdout_bytes: Option<nat>,
    pub stderr_bytes: Option<nat>,
    pub timeout_ms: Option<nat>,
    pub json: bool,
}

pub open spec fn empty_compile_scan() -> CompileScan {
    CompileScan {
        packages: Seq::empty(),
        policy: None,
        observations: Seq::empty(),
        attesters: Seq::empty(),
        stdin_bytes: None,
        stdout_bytes: None,
        stderr_bytes: None,
        timeout_ms: None,
        json: false,
    }
}

/// The `compile` flag grammar from argument `i` on: each flag is read in
/// turn, and the first refusal is the answer.
pub open spec fn compile_scan(args: Seq<Seq<char>>, i: nat, st: CompileScan, limits: CompileInputLimits) -> Result<
    CompileScan,
    Seq<char>,
>
    decreases args.len() - i,
{
    if i >= args.len() {
        Ok(st)
    } else {
        let a = args[i as int];
        let c = "compile"@;
        let v = flag_value(args, i as int);
        if a == "--package"@ {
            if st.packages.len() >= limits.max_packages {
                Err(slot_msg(c, "package paths"@, limits.max_packages as nat))
            } else {
                match v {
                    None => Err(requires_value_msg(c, a)),
                    Some(p) => compile_scan(args, i + 2, CompileScan { packages: st.packages.push(p), ..st }, limits),
                }
            }
        } else if a == "--policy"@ {
            match v {
                None => Err(requires_value_msg(c, a)),
                Some(p) => if st.policy is Some {
                    Err(once_msg(c, a))
                } else {
                    compile_scan(args, i + 2, CompileScan { policy: Some(p), ..st }, limits)
                },
            }
        } else if a == "--observation"@ || a == "--attester"@ {
            let count = st.observations.len() + st.attesters.len() + 1;
            if count > usize::MAX {
                Err("gooir compile document count overflowed"@)
            } else if count >= limits.max_documents {
                Err(documents_msg(limits.max_documents as nat))
            } else if a == "--observation"@ && st.observations.len() >= limits.max_observations {
                Err(slot_msg(c, "observation documents"@, limits.max_observations as nat))
            } else if a == "--attester"@ && st.attesters.len() >= limits.max_attesters {
                Err(slot_msg(c, "attester documents"@, limits.max_attesters as nat))
            } else {
                match v {
                    None => Err(requires_value_msg(c, a)),
                    Some(p) => if a == "--observation"@ {
                        compile_scan(args, i + 2, CompileScan { observations: st.observations.push(p), ..st }, limits)
                    } else {
                        compile_scan(args, i + 2, CompileScan { attesters: st.attesters.push(p), ..st }, limits)
                    },
                }
            }
        } else if a == "--stdin-bytes"@ || a == "--stdout-bytes"@ || a == "--stderr-bytes"@ || a == "--timeout-ms"@ {
            let max: nat = if a == "--timeout-ms"@ { u64::MAX as nat } else { usize::MAX as nat };
            let slot = if a == "--stdin-bytes"@ {
                st.stdin_bytes
            } else if a == "--stdout-bytes"@ {
                st.stdout_bytes
            } else if a == "--stderr-bytes"@ {
                st.stderr_bytes
            } else {
                st.timeout_ms
            };
            match v {
                None => Err(requires_value_msg(c, a)),
                Some(t) => match positive_value(a, t, max) {
                    Err(e) => Err(e),
                    Ok(n) => if slot is Some {
                        Err(once_msg(c, a))
                    } else if a == "--stdin-bytes"@ {
                        compile_scan(args, i + 2, CompileScan { stdin_bytes: Some(n), ..st }, limits)
                    } else if a == "--stdout-bytes"@ {
                        compile_scan(args, i + 2, CompileScan { stdout_bytes: Some(n), ..st }, limits)
                    } else if a == "--stderr-bytes"@ {
                        compile_scan(args, i + 2, CompileScan { stderr_bytes: Some(n), ..st }, limits)
                    } else {
                        compile_scan(args, i + 2, CompileScan { timeout_ms: Some(n), ..st }, limits)
                    },
                },
            }
        } else if a == "--json"@ {
            if st.json {
                Err(once_msg(c, a))
            } else {
                compile_scan(args, i + 1, CompileScan { json: true, ..st }, limits)
            }
        } else if starts_with(a, "--"@) {
            Err(unknown_flag_msg(c, a))
        } else {
            Err(extra_argument_msg(c, a))
        }
    }
}

/// The whole `compile` grammar: positive bounds, one target that is not a
/// flag, the flags, and then each required flag in turn.
pub open spec fn compile_grammar(args: Seq<Seq<char>>, limits: CompileInputLimits) -> Result<CompileScan, Seq<char>> {
    let c = "compile"@;
    if !limits_positive(limits) {
        Err(limits_msg(c))
    } else if args.len() < 2 || starts_with(args[1], "--"@) {
        Err("usage: gooir compile <target>"@)
    } else {
        match compile_scan(args, 2, empty_compile_scan(), limits) {
            Err(e) => Err(e),
            Ok(st) => if st.policy is None {
                Err(required_msg(c, "--policy"@))
            } else if st.stdin_bytes is None {
                Err(required_msg(c, "--stdin-bytes"@))
            } else if st.stdout_bytes is None {
                Err(required_msg(c, "--stdout-bytes"@))
            } else if st.stderr_bytes is None {
                Err(required_msg(c, "--stderr-bytes"@))
            } else if st.timeout_ms is None {
                Err(required_msg(c, "--timeout-ms"@))
            } else {
                Ok(st)
            },
        }
    }
}

proof fn lemma_compile_flags_distinct()
    ensures
        "--stdin-bytes"@ != "--stdout-bytes"@,
        "--stdin-bytes"@ != "--stderr-bytes"@,
        "--stdin-bytes"@ != "--timeout-ms"@,
        "--stdout-bytes"@ != "--stderr-bytes"@,
        "--stdout-bytes"@ != "--timeout-ms"@,
        "--stderr-bytes"@ != "--timeout-ms"@,
        "--observation"@ != "--attester"@,
{
    reveal_strlit("--stdin-bytes");
    reveal_strlit("--stdout-bytes");
    reveal_strlit("--stderr-bytes");
    reveal_strlit("--timeout-ms");
    reveal_strlit("--observation");
    reveal_strlit("--attester");
    assert("--stdin-bytes"@.len() == 13);
    assert("--stdout-bytes"@.len() == 14);
    assert("--stderr-bytes"@.len() == 14);
    assert("--timeout-ms"@.len() == 12);
    assert("--observation"@.len() == 13);
    assert("--attester"@.len() == 10);
    assert("--stdout-bytes"@[5] != "--stderr-bytes"@[5]);
}

/// A parsed `gooir compile` command line.
#[derive(Debug)]
pub struct CompileArguments {
    pub target: String,
    pub packages: Vec<String>,
    pub policy: String,
    pub observations: Vec<String>,
    pub attesters: Vec<String>,
    pub stdio_limits: StdioLimits,
    pub input_limits: CompileInputLimits,
    pub json: bool,
}

pub open spec fn compile_state(
    packages: Seq<String>,
    policy: Option<String>,
    observations: Seq<String>,
    attesters: Seq<String>,
    stdin: Option<usize>,
    stdout: Option<usize>,
    stderr: Option<usize>,
    timeout: Option<u64>,
    json: bool,
) -> CompileScan {
    CompileScan {
        packages: str_views(packages),
        policy: opt_str_view(policy),
        observations: str_views(observations),
        attesters: str_views(attesters),
        stdin_bytes: opt_usize_view(stdin),
        stdout_bytes: opt_usize_view(stdout),
        stderr_bytes: opt_usize_view(stderr),
        timeout_ms: opt_u64_view(timeout),
        json,
    }
}

proof fn lemma_push_views(v: Seq<String>, s: String)
    ensures
        str_views(v.push(s)) == str_views(v).push(s@),
{
    assert(str_views(v.push(s)) =~= str_views(v).push(s@));
}

impl CompileArguments {
    /// Reads `gooir compile <target> ...`, refusing unknown, repeated,
    /// valueless and extra arguments, zero bounds, and counts past the
    /// limits, with the first refusal's message.
    #[verifier::rlimit(60)]
    pub fn parse(args: &[String], input_limits: CompileInputLimits) -> (r: Result<Self, String>)
        ensures
            r matches Err(e) ==> compile_grammar(str_views(args@), input_limits) == Err::<CompileScan, Seq<char>>(e@),
            r matches Ok(a) ==> compile_grammar(str_views(args@), input_limits) == Ok::<CompileScan, Seq<char>>(
                compile_state(
                    a.packages@,
                    Some(a.policy),
                    a.observations@,
                    a.attesters@,
                    Some(a.stdio_limits.max_stdin_bytes),
                    Some(a.stdio_limits.max_stdout_bytes),
                    Some(a.stdio_limits.max_stderr_bytes),
                    Some(a.stdio_limits.timeout_milliseconds),
                    a.json,
                ),
            ) && a.target@ == args@[1]@ && a.input_limits == input_limits,
    {
        let ghost argv = str_views(args@);
        proof {
            lemma_compile_flags_distinct();
        }
        input_limits.validate()?;
        if args.len() < 2 || str_starts_with(args[1].as_str(), "--") {
            return Err(owned("usage: gooir compile <target>"));
        }
        let target = args[1].clone();
        let mut packages: Vec<String> = Vec::new();
        let mut policy: Option<String> = None;
        let mut observations: Vec<String> = Vec::new();
        let mut attesters: Vec<String> = Vec::new();
        let mut stdin_bytes: Option<usize> = None;
        let mut stdout_bytes: Option<usize> = None;
        let mut stderr_bytes: Option<usize> = None;
        let mut timeout_milliseconds: Option<u64> = None;
        let mut json = false;
        let mut index: usize = 2;
        assert(compile_state(packages@, policy, observations@, attesters@, stdin_bytes, stdout_bytes, stderr_bytes, timeout_milliseconds, json) == empty_compile_scan()) by {
            assert(str_views(packages@) =~= Seq::<Seq<char>>::empty());
            assert(str_views(observations@) =~= Seq::<Seq<char>>::empty());
            assert(str_views(attesters@) =~= Seq::<Seq<char>>::empty());
        }
        while index < args.len()
            invariant
                2 <= index <= args.len() + 1,
                argv == str_views(args@),
                limits_positive(input_limits),
                args.len() >= 2,
                !starts_with(argv[1], "--"@),
                compile_scan(argv, 2, empty_compile_scan(), input_limits) == compile_scan(
                    argv,
                    index as nat,
                    compile_state(packages@, policy, observations@, attesters@, stdin_bytes, stdout_bytes, stderr_bytes, timeout_milliseconds, json),
                    input_limits,
                ),
            decreases args.len() + 1 - index,
        {
            let ghost st = compile_state(packages@, policy, observations@, attesters@, stdin_bytes, stdout_bytes, stderr_bytes, timeout_milliseconds, json);
            proof {
                lemma_compile_flags_distinct();
            }
            let argument = args[index].as_str();
            assert(argv[index as int] == argument@);
            let is_observation = str_eq(argument, "--observation");
            let is_attester = str_eq(argument, "--attester");
            let is_stdin = str_eq(argument, "--stdin-bytes");
            let is_stdout = str_eq(argument, "--stdout-bytes");
            let is_stderr = str_eq(argument, "--stderr-bytes");
            let is_timeout = str_eq(argument, "--timeout-ms");
            if str_eq(argument, "--package") {
                if packages.len() >= input_limits.max_packages {
                    return Err(slot_error("compile", "package paths", input_limits.max_packages));
                }
                match flag_value_at(args, index) {
                    None => return Err(requires_value_error("compile", "--package")),
                    Some(p) => {
                        proof { lemma_push_views(packages@, p); }
                        packages.push(p);
                        index = index + 2;
                    },
                }
            } else if str_eq(argument, "--policy") {
                match flag_value_at(args, index) {
                    None => return Err(requires_value_error("compile", "--policy")),
                    Some(p) => {
                        if policy.is_some() {
                            return Err(once_error("compile", "--policy"));
                        }
                        policy = Some(p);
                        index = index + 2;
                    },
                }
            } else if is_observation || is_attester {
                let count = observations.len().checked_add(attesters.len());
                let count = match count {
                    Some(n) => n.checked_add(1),
                    None => None,
                };
                let count = match count {
                    Some(n) => n,
                    None => return Err(owned("gooir compile document count overflowed")),
                };
                if count >= input_limits.max_documents {
                    let mut m = owned("gooir compile documents exceed aggregate count limit ");
                    let d = decimal_string(input_limits.max_documents as u64);
                    m.append(d.as_str());
                    return Err(m);
                }
                if is_observation && observations.len() >= input_limits.max_observations {
                    return Err(slot_error("compile", "observation documents", input_limits.max_observations));
                }
                if is_attester && attesters.len() >= input_limits.max_attesters {
                    return Err(slot_error("compile", "attester documents", input_limits.max_attesters));
                }
                match flag_value_at(args, index) {
                    None => return Err(requires_value_error("compile", argument)),
                    Some(p) => {
                        if is_observation {
                            proof { lemma_push_views(observations@, p); }
                            observations.push(p);
                        } else {
                            proof { lemma_push_views(attesters@, p); }
                            attesters.push(p);
                        }
                        index = index + 2;
                    },
                }
            } else if is_stdin || is_stdout || is_stderr || is_timeout {
                match flag_value_at(args, index) {
                    None => return Err(requires_value_error("compile", argument)),
                    Some(t) => {
                        if is_timeout {
                            let n = positive_u64_value(argument, t.as_str())?;
                            if timeout_milliseconds.is_some() {
                                return Err(once_error("compile", argument));
                            }
                            timeout_milliseconds = Some(n);
                        } else {
                            let n = positive_usize_value(argument, t.as_str())?;
                            if is_stdin {
                                if stdin_bytes.is_some() {
                                    return Err(once_error("compile", argument));
                                }
                                stdin_bytes = Some(n);
                            } else if is_stdout {
                                if stdout_bytes.is_some() {
                                    return Err(once_error("compile", argument));
                                }
                                stdout_bytes = Some(n);
                            } else {
                                if stderr_bytes.is_some() {
                                    return Err(once_error("compile", argument));
                                }
                                stderr_bytes = Some(n);
                            }
                        }
                        index = index + 2;
                    },
                }
            } else if str_eq(argument, "--json") {
                if json {
                    return Err(once_error("compile", "--json"));
                }
                json = true;
                index = index + 1;
            } else if str_starts_with(argument, "--") {
                return Err(unknown_flag_error("compile", argument));
            } else {
                return Err(extra_argument_error("compile", argument));
            }
        }
        let policy = match policy {
            Some(p) => p,
            None => return Err(required_error("compile", "--policy")),
        };
        let max_stdin_bytes = match stdin_bytes {
            Some(n) => n,
            None => return Err(required_error("compile", "--stdin-bytes")),
        };
        let max_stdout_bytes = match stdout_bytes {
            Some(n) => n,
            None => return Err(required_error("compile", "--stdout-bytes")),
        };
        let max_stderr_bytes = match stderr_bytes {
            Some(n) => n,
            None => return Err(required_error("compile", "--stderr-bytes")),
        };
        let timeout = match timeout_milliseconds {
            Some(n) => n,
            None => return Err(required_error("compile", "--timeout-ms")),
        };
        Ok(CompileArguments {
            target,
            packages,
            policy,
            observations,
            attesters,
            stdio_limits: StdioLimits {
                max_stdin_bytes,
                max_stdout_bytes,
                max_stderr_bytes,
                timeout_milliseconds: timeout,
            },
            input_limits,
            json,
        })
    }
}


/// One exact managed output identity, written `NAME@VERSION`: one `@` with
/// text on both sides, and no whitespace or control character.
pub open spec fn valid_output_id(s: Seq<char>) -> bool {
    &&& exists|i: int| 0 < i < s.len() - 1 && s[i] == '@'
    &&& forall|i: int, j: int| 0 <= i < j < s.len() && s[i] == '@' ==> s[j] != '@'
    &&& forall|i: int| 0 <= i < s.len() ==> !is_unicode_whitespace(#[trigger] s[i]) && !is_control(s[i])
}

pub open spec fn output_id_msg(value: Seq<char>) -> Seq<char> {
    "`"@ + value + "` is not an exact NAME@VERSION output identity"@
}

/// The identity of one managed output directory.
#[derive(Clone, Debug)]
pub struct OutputId(String);

impl View for OutputId {
    type V = Seq<char>;

    closed spec fn view(&self) -> Seq<char> {
        self.0@
    }
}

impl OutputId {
    pub fn parse(value: &str) -> (r: Result<Self, String>)
        ensures
            r matches Ok(id) ==> id@ == value@,
            r matches Err(e) ==> e@ == output_id_msg(value@),
            r is Ok <==> valid_output_id(value@),
    {
        let s = chars_of(value);
        let mut at: Option<usize> = None;
        let mut i: usize = 0;
        let mut ok = true;
        while i < s.len()
            invariant
                i <= s.len(),
                s@ == value@,
                ok ==> forall|k: int| 0 <= k < i ==> !is_unicode_whitespace(#[trigger] s@[k]) && !is_control(s@[k]),
                ok ==> match at {
                    Some(p) => p < i && s@[p as int] == '@' && forall|k: int| 0 <= k < i && k != p ==> s@[k] != '@',
                    None => forall|k: int| 0 <= k < i ==> s@[k] != '@',
                },
                !ok ==> !valid_output_id(value@),
            decreases s.len() - i,
        {
            let c = s[i];
            if ok {
                if char_is_whitespace(c) || char_is_control(c) {
                    ok = false;
                } else if c == '@' {
                    match at {
                        Some(p) => {
                            assert(s@[p as int] == '@' && s@[i as int] == '@');
                            ok = false;
                        },
                        None => {
                            at = Some(i);
                        },
                    }
                }
            }
            i = i + 1;
        }
        let valid = ok && match at {
            Some(p) => 0 < p && p + 1 < s.len(),
            None => false,
        };
        if valid {
            Ok(OutputId(owned(value)))
        } else {
            proof {
                if ok {
                    if valid_output_id(value@) {
                        let w = choose|w: int| 0 < w < s@.len() - 1 && s@[w] == '@';
                        assert(s@[w] == '@');
                    }
                }
            }
            let mut m = owned("`");
            m.append(value);
            m.append("` is not an exact NAME@VERSION output identity");
            Err(m)
        }
    }

    pub fn as_str(&self) -> (r: &str)
        ensures
            r@ == self@,
    {
        self.0.as_str()
    }
}

/// One managed output: its identity and the directory it is published to.
#[derive(Clone, Debug)]
pub struct ManagedOutput {
    pub id: OutputId,
    pub destination: String,
}

impl ManagedOutput {
    pub fn id(&self) -> (r: &OutputId)
        ensures
            r@ == self.id@,
    {
        &self.id
    }

    pub fn destination(&self) -> (r: &str)
        ensures
            r@ == self.destination@,
    {
        self.destination.as_str()
    }
}

/// One output port of one capability: the exact target of a build.
#[derive(Clone, Debug)]
pub struct RouteOutputRef {
    pub capability: ExactId,
    pub output_port: PortName,
}

/// What the `build` flags have collected so far.
pub struct BuildScan {
    pub toolchain: Option<Seq<char>>,
    pub sources: Seq<Seq<char>>,
    pub policy: Option<Seq<char>>,
    pub source_authority: Option<Seq<char>>,
    pub observations: Seq<Seq<char>>,
    pub output: Option<Seq<char>>,
    pub output_id: Option<Seq<char>>,
    pub stdin_bytes: Option<nat>,
    pub stdout_bytes: Option<nat>,
    pub stderr_bytes: Option<nat>,
    pub timeout_ms: Option<nat>,
    pub json: bool,
}

pub open spec fn empty_build_scan() -> BuildScan {
    BuildScan {
        toolchain: None,
        sources: Seq::empty(),
        policy: None,
        source_authority: None,
        observations: Seq::empty(),
        output: None,
        output_id: None,
        stdin_bytes: None,
        stdout_bytes: None,
        stderr_bytes: None,
        timeout_ms: None,
        json: false,
    }
}

pub open spec fn is_path_flag(a: Seq<char>) -> bool {
    a == "--toolchain"@ || a == "--policy"@ || a == "--source-authority"@ || a == "--output"@
}

pub open spec fn is_bound_flag(a: Seq<char>) -> bool {
    a == "--stdin-bytes"@ || a == "--stdout-bytes"@ || a == "--stderr-bytes"@ || a == "--timeout-ms"@
}

/// The `build` flag grammar from argument `i` on.
pub open spec fn build_scan(args: Seq<Seq<char>>, i: nat, st: BuildScan, limits: CompileInputLimits) -> Result<
    BuildScan,
    Seq<char>,
>
    decreases args.len() - i,
{
    if i >= args.len() {
        Ok(st)
    } else {
        let a = args[i as int];
        let c = "build"@;
        let v = flag_value(args, i as int);
        if is_path_flag(a) {
            let slot = if a == "--toolchain"@ {
                st.toolchain
            } else if a == "--policy"@ {
                st.policy
            } else if a == "--source-authority"@ {
                st.source_authority
            } else {
                st.output
            };
            match v {
                None => Err(requires_value_msg(c, a)),
                Some(p) => if slot is Some {
                    Err(once_msg(c, a))
                } else if a == "--toolchain"@ {
                    build_scan(args, i + 2, BuildScan { toolchain: Some(p), ..st }, limits)
                } else if a == "--policy"@ {
                    build_scan(args, i + 2, BuildScan { policy: Some(p), ..st }, limits)
                } else if a == "--source-authority"@ {
                    build_scan(args, i + 2, BuildScan { source_authority: Some(p), ..st }, limits)
                } else {
                    build_scan(args, i + 2, BuildScan { output: Some(p), ..st }, limits)
                },
            }
        } else if a == "--source"@ {
            if st.sources.len() >= limits.max_observations {
                Err(slot_msg(c, "source files"@, limits.max_observations as nat))
            } else {
                match v {
                    None => Err(requires_value_msg(c, a)),
                    Some(p) => build_scan(args, i + 2, BuildScan { sources: st.sources.push(p), ..st }, limits),
                }
            }
        } else if a == "--observation"@ {
            let limit: nat = if limits.max_observations == 0 { 0 } else { (limits.max_observations - 1) as nat };
            if st.observations.len() >= limit {
                Err(slot_msg(c, "observation documents"@, limit))
            } else {
                match v {
                    None => Err(requires_value_msg(c, a)),
                    Some(p) => build_scan(args, i + 2, BuildScan { observations: st.observations.push(p), ..st }, limits),
                }
            }
        } else if a == "--output-id"@ {
            match v {
                None => Err(requires_value_msg(c, a)),
                Some(p) => if !valid_output_id(p) {
                    Err(output_id_msg(p))
                } else if st.output_id is Some {
                    Err(once_msg(c, a))
                } else {
                    build_scan(args, i + 2, BuildScan { output_id: Some(p), ..st }, limits)
                },
            }
        } else if is_bound_flag(a) {
            let max: nat = if a == "--timeout-ms"@ { u64::MAX as nat } else { usize::MAX as nat };
            let slot = if a == "--stdin-bytes"@ {
                st.stdin_bytes
            } else if a == "--stdout-bytes"@ {
                st.stdout_bytes
            } else if a == "--stderr-bytes"@ {
                st.stderr_bytes
            } else {
                st.timeout_ms
            };
            match v {
                None => Err(requires_value_msg(c, a)),
                Some(t) => match positive_value(a, t, max) {
                    Err(e) => Err(e),
                    Ok(n) => if slot is Some {
                        Err(once_msg(c, a))
                    } else if a == "--stdin-bytes"@ {
                        build_scan(args, i + 2, BuildScan { stdin_bytes: Some(n), ..st }, limits)
                    } else if a == "--stdout-bytes"@ {
                        build_scan(args, i + 2, BuildScan { stdout_bytes: Some(n), ..st }, limits)
                    } else if a == "--stderr-bytes"@ {
                        build_scan(args, i + 2, BuildScan { stderr_bytes: Some(n), ..st }, limits)
                    } else {
                        build_scan(args, i + 2, BuildScan { timeout_ms: Some(n), ..st }, limits)
                    },
                },
            }
        } else if a == "--json"@ {
            if st.json {
                Err(once_msg(c, a))
            } else {
                build_scan(args, i + 1, BuildScan { json: true, ..st }, limits)
            }
        } else if starts_with(a, "--"@) {
            Err(unknown_flag_msg(c, a))
        } else {
            Err(extra_argument_msg(c, a))
        }
    }
}

pub open spec fn build_usage_msg() -> Seq<char> {
    "usage: gooir build <capability> <output-port> --toolchain DIR --source PATH"@
}

pub open spec fn capability_msg(text: Seq<char>) -> Seq<char> {
    "invalid build capability: `"@ + text + "` is not an exact package/name@version identity"@
}

pub open spec fn port_msg(text: Seq<char>) -> Seq<char> {
    "invalid build output port: `"@ + debug_escaped(text) + "` is not an exact port name"@
}

/// The whole `build` grammar: positive bounds, an exact capability and
/// output port, the flags, at least one source, and then each required
/// flag in turn.
pub open spec fn build_grammar(args: Seq<Seq<char>>, limits: CompileInputLimits) -> Result<BuildScan, Seq<char>> {
    let c = "build"@;
    if !limits_positive(limits) {
        Err(limits_msg(c))
    } else if args.len() < 2 || starts_with(args[1], "--"@) {
        Err(build_usage_msg())
    } else if parse_id(args[1]) is None {
        Err(capability_msg(args[1]))
    } else if args.len() < 3 || starts_with(args[2], "--"@) {
        Err(build_usage_msg())
    } else if !valid_port_name(args[2]) {
        Err(port_msg(args[2]))
    } else {
        match build_scan(args, 3, empty_build_scan(), limits) {
            Err(e) => Err(e),
            Ok(st) => if st.sources.len() == 0 {
                Err("gooir build requires at least one --source"@)
            } else if st.output_id is None {
                Err(required_msg(c, "--output-id"@))
            } else if st.output is None {
                Err(required_msg(c, "--output"@))
            } else if st.toolchain is None {
                Err(required_msg(c, "--toolchain"@))
            } else if st.policy is None {
                Err(required_msg(c, "--policy"@))
            } else if st.source_authority is None {
                Err(required_msg(c, "--source-authority"@))
            } else if st.stdin_bytes is None {
                Err(required_msg(c, "--stdin-bytes"@))
            } else if st.stdout_bytes is None {
                Err(required_msg(c, "--stdout-bytes"@))
            } else if st.stderr_bytes is None {
                Err(required_msg(c, "--stderr-bytes"@))
            } else if st.timeout_ms is None {
                Err(required_msg(c, "--timeout-ms"@))
            } else {
                Ok(st)
            },
        }
    }
}

/// The observation documents a `build` may name: one fewer than the
/// sources, leaving room for the observation of the sources themselves.
pub open spec fn build_observation_limit(limits: CompileInputLimits) -> nat {
    if limits.max_observations == 0 { 0 } else { (limits.max_observations - 1) as nat }
}

proof fn lemma_build_scan_bounds(args: Seq<Seq<char>>, i: nat, st: BuildScan, limits: CompileInputLimits)
    requires
        st.sources.len() <= limits.max_observations,
        st.observations.len() <= build_observation_limit(limits),
    ensures
        build_scan(args, i, st, limits) matches Ok(r) ==> r.sources.len() <= limits.max_observations
            && r.observations.len() <= build_observation_limit(limits),
    decreases args.len() - i,
{
    if i < args.len() {
        let a = args[i as int];
        let v = flag_value(args, i as int);
        if v is Some {
            let p = v.unwrap();
            lemma_build_scan_bounds(args, i + 2, BuildScan { toolchain: Some(p), ..st }, limits);
            lemma_build_scan_bounds(args, i + 2, BuildScan { policy: Some(p), ..st }, limits);
            lemma_build_scan_bounds(args, i + 2, BuildScan { source_authority: Some(p), ..st }, limits);
            lemma_build_scan_bounds(args, i + 2, BuildScan { output: Some(p), ..st }, limits);
            lemma_build_scan_bounds(args, i + 2, BuildScan { output_id: Some(p), ..st }, limits);
            if st.sources.len() < limits.max_observations {
                lemma_build_scan_bounds(args, i + 2, BuildScan { sources: st.sources.push(p), ..st }, limits);
            }
            if st.observations.len() < build_observation_limit(limits) {
                lemma_build_scan_bounds(args, i + 2, BuildScan { observations: st.observations.push(p), ..st }, limits);
            }
            let max: nat = if a == "--timeout-ms"@ { u64::MAX as nat } else { usize::MAX as nat };
            if positive_value(a, p, max) is Ok {
                let n = positive_value(a, p, max)->Ok_0;
                lemma_build_scan_bounds(args, i + 2, BuildScan { stdin_bytes: Some(n), ..st }, limits);
                lemma_build_scan_bounds(args, i + 2, BuildScan { stdout_bytes: Some(n), ..st }, limits);
                lemma_build_scan_bounds(args, i + 2, BuildScan { stderr_bytes: Some(n), ..st }, limits);
                lemma_build_scan_bounds(args, i + 2, BuildScan { timeout_ms: Some(n), ..st }, limits);
            }
        }
        lemma_build_scan_bounds(args, i + 1, BuildScan { json: true, ..st }, limits);
    }
}

/// Every `build` command line the grammar accepts stays within the
/// bounds: at most `max_observations` sources and one fewer observation
/// documents.
pub proof fn lemma_build_within_bounds(args: Seq<Seq<char>>, limits: CompileInputLimits)
    ensures
        build_grammar(args, limits) matches Ok(st) ==> st.sources.len() <= limits.max_observations
            && st.observations.len() <= build_observation_limit(limits),
{
    if limits_positive(limits) && args.len() >= 3 {
        lemma_build_scan_bounds(args, 3, empty_build_scan(), limits);
    }
}

proof fn lemma_build_flags_distinct()
    ensures
        "--toolchain"@ != "--policy"@,
        "--toolchain"@ != "--source-authority"@,
        "--toolchain"@ != "--output"@,
        "--policy"@ != "--source-authority"@,
        "--policy"@ != "--output"@,
        "--source-authority"@ != "--output"@,
{
    reveal_strlit("--toolchain");
    reveal_strlit("--policy");
    reveal_strlit("--source-authority");
    reveal_strlit("--output");
    assert("--toolchain"@.len() == 11);
    assert("--policy"@.len() == 8);
    assert("--source-authority"@.len() == 18);
    assert("--output"@.len() == 8);
    assert("--policy"@[2] != "--output"@[2]);
}

/// A parsed `gooir build` command line.
#[derive(Debug)]
pub struct BuildArguments {
    pub target: RouteOutputRef,
    pub toolchain: String,
    pub sources: Vec<String>,
    pub policy: String,
    pub source_authority: String,
    pub observations: Vec<String>,
    pub output: ManagedOutput,
    pub stdio_limits: StdioLimits,
    pub input_limits: CompileInputLimits,
    pub json: bool,
}

/// The exec state of the `build` scan, collected in one place.
struct BuildState {
    toolchain: Option<String>,
    sources: Vec<String>,
    policy: Option<String>,
    source_authority: Option<String>,
    observations: Vec<String>,
    output: Option<String>,
    output_id: Option<OutputId>,
    stdin_bytes: Option<usize>,
    stdout_bytes: Option<usize>,
    stderr_bytes: Option<usize>,
    timeout_ms: Option<u64>,
    json: bool,
}

impl BuildState {
    spec fn scan_view(&self) -> BuildScan {
        BuildScan {
            toolchain: opt_str_view(self.toolchain),
            sources: str_views(self.sources@),
            policy: opt_str_view(self.policy),
            source_authority: opt_str_view(self.source_authority),
            observations: str_views(self.observations@),
            output: opt_str_view(self.output),
            output_id: match self.output_id {
                Some(id) => Some(id@),
                None => None,
            },
            stdin_bytes: opt_usize_view(self.stdin_bytes),
            stdout_bytes: opt_usize_view(self.stdout_bytes),
            stderr_bytes: opt_usize_view(self.stderr_bytes),
            timeout_ms: opt_u64_view(self.timeout_ms),
            json: self.json,
        }
    }
}

/// One step of the `build` scan at argument `index`.
#[verifier::rlimit(60)]
fn build_step(args: &[String], index: &mut usize, st: &mut BuildState, limits: CompileInputLimits) -> (r: Result<(), String>)
    requires
        *old(index) < args.len(),
        *old(index) >= 3,
        limits_positive(limits),
    ensures
        r matches Err(e) ==> build_scan(str_views(args@), *old(index) as nat, old(st).scan_view(), limits) == Err::<BuildScan, Seq<char>>(e@),
        r is Ok ==> *final(index) > *old(index) && *final(index) <= args.len() && build_scan(
            str_views(args@),
            *old(index) as nat,
            old(st).scan_view(),
            limits,
        ) == build_scan(str_views(args@), *final(index) as nat, final(st).scan_view(), limits),
{
    proof {
        lemma_compile_flags_distinct();
        lemma_build_flags_distinct();
    }
    let ghost argv = str_views(args@);
    let i = *index;
    let argument = args[i].as_str();
    assert(argv[i as int] == argument@);
    let is_toolchain = str_eq(argument, "--toolchain");
    let is_policy = str_eq(argument, "--policy");
    let is_authority = str_eq(argument, "--source-authority");
    let is_output = str_eq(argument, "--output");
    let is_stdin = str_eq(argument, "--stdin-bytes");
    let is_stdout = str_eq(argument, "--stdout-bytes");
    let is_stderr = str_eq(argument, "--stderr-bytes");
    let is_timeout = str_eq(argument, "--timeout-ms");
    if is_toolchain || is_policy || is_authority || is_output {
        let value = match flag_value_at(args, i) {
            None => return Err(requires_value_error("build", argument)),
            Some(p) => p,
        };
        if is_toolchain {
            if st.toolchain.is_some() {
                return Err(once_error("build", argument));
            }
            st.toolchain = Some(value);
        } else if is_policy {
            if st.policy.is_some() {
                return Err(once_error("build", argument));
            }
            st.policy = Some(value);
        } else if is_authority {
            if st.source_authority.is_some() {
                return Err(once_error("build", argument));
            }
            st.source_authority = Some(value);
        } else {
            if st.output.is_some() {
                return Err(once_error("build", argument));
            }
            st.output = Some(value);
        }
        *index = i + 2;
    } else if str_eq(argument, "--source") {
        if st.sources.len() >= limits.max_observations {
            return Err(slot_error("build", "source files", limits.max_observations));
        }
        match flag_value_at(args, i) {
            None => return Err(requires_value_error("build", argument)),
            Some(p) => {
                proof { lemma_push_views(st.sources@, p); }
                st.sources.push(p);
                *index = i + 2;
            },
        }
    } else if str_eq(argument, "--observation") {
        let limit = limits.max_observations - 1;
        if st.observations.len() >= limit {
            return Err(slot_error("build", "observation documents", limit));
        }
        match flag_value_at(args, i) {
            None => return Err(requires_value_error("build", argument)),
            Some(p) => {
                proof { lemma_push_views(st.observations@, p); }
                st.observations.push(p);
                *index = i + 2;
            },
        }
    } else if str_eq(argument, "--output-id") {
        match flag_value_at(args, i) {
            None => return Err(requires_value_error("build", argument)),
            Some(p) => {
                let id = OutputId::parse(p.as_str())?;
                if st.output_id.is_some() {
                    return Err(once_error("build", argument));
                }
                st.output_id = Some(id);
                *index = i + 2;
            },
        }
    } else if is_stdin || is_stdout || is_stderr || is_timeout {
        match flag_value_at(args, i) {
            None => return Err(requires_value_error("build", argument)),
            Some(t) => {
                if is_timeout {
                    let n = positive_u64_value(argument, t.as_str())?;
                    if st.timeout_ms.is_some() {
                        return Err(once_error("build", argument));
                    }
                    st.timeout_ms = Some(n);
                } else {
                    let n = positive_usize_value(argument, t.as_str())?;
                    if is_stdin {
                        if st.stdin_bytes.is_some() {
                            return Err(once_error("build", argument));
                        }
                        st.stdin_bytes = Some(n);
                    } else if is_stdout {
                        if st.stdout_bytes.is_some() {
                            return Err(once_error("build", argument));
                        }
                        st.stdout_bytes = Some(n);
                    } else {
                        if st.stderr_bytes.is_some() {
                            return Err(once_error("build", argument));
                        }
                        st.stderr_bytes = Some(n);
                    }
                }
                *index = i + 2;
            },
        }
    } else if str_eq(argument, "--json") {
        if st.json {
            return Err(once_error("build", argument));
        }
        st.json = true;
        *index = i + 1;
    } else if str_starts_with(argument, "--") {
        return Err(unknown_flag_error("build", argument));
    } else {
        return Err(extra_argument_error("build", argument));
    }
    Ok(())
}


/// What a parsed build command line collected.
pub open spec fn build_scan_of(a: BuildArguments) -> BuildScan {
    BuildScan {
        toolchain: Some(a.toolchain@),
        sources: str_views(a.sources@),
        policy: Some(a.policy@),
        source_authority: Some(a.source_authority@),
        observations: str_views(a.observations@),
        output: Some(a.output.destination@),
        output_id: Some(a.output.id@),
        stdin_bytes: Some(a.stdio_limits.max_stdin_bytes as nat),
        stdout_bytes: Some(a.stdio_limits.max_stdout_bytes as nat),
        stderr_bytes: Some(a.stdio_limits.max_stderr_bytes as nat),
        timeout_ms: Some(a.stdio_limits.timeout_milliseconds as nat),
        json: a.json,
    }
}

impl BuildArguments {
    /// Reads `gooir build <capability> <output-port> ...`: one exact
    /// capability and port, every host input named exactly once (sources
    /// and observations repeatable within their bounds), and positive
    /// stdio bounds; the first refusal's message otherwise.
    #[verifier::rlimit(40)]
    pub fn parse(args: &[String], input_limits: CompileInputLimits) -> (r: Result<Self, String>)
        ensures
            r matches Err(e) ==> build_grammar(str_views(args@), input_limits) == Err::<BuildScan, Seq<char>>(e@),
            r matches Ok(a) ==> build_grammar(str_views(args@), input_limits) == Ok::<BuildScan, Seq<char>>(
                build_scan_of(a),
            ) && Some(a.target.capability@) == parse_id(args@[1]@) && a.target.output_port@ == args@[2]@
                && a.input_limits == input_limits,
    {
        let ghost argv = str_views(args@);
        input_limits.validate_for("build")?;
        if args.len() < 2 || str_starts_with(args[1].as_str(), "--") {
            return Err(owned("usage: gooir build <capability> <output-port> --toolchain DIR --source PATH"));
        }
        assert(argv[1] == args@[1]@);
        let capability = match ExactId::parse(args[1].as_str()) {
            Some(id) => id,
            None => {
                let mut m = owned("invalid build capability: `");
                m.append(args[1].as_str());
                m.append("` is not an exact package/name@version identity");
                return Err(m);
            },
        };
        if args.len() < 3 || str_starts_with(args[2].as_str(), "--") {
            return Err(owned("usage: gooir build <capability> <output-port> --toolchain DIR --source PATH"));
        }
        assert(argv[2] == args@[2]@);
        let output_port = match PortName::parse(args[2].clone()) {
            Ok(p) => p,
            Err(_) => {
                let mut m = owned("invalid build output port: `");
                let escaped = escape_debug(args[2].as_str());
                m.append(escaped.as_str());
                m.append("` is not an exact port name");
                return Err(m);
            },
        };
        let mut st = BuildState {
            toolchain: None,
            sources: Vec::new(),
            policy: None,
            source_authority: None,
            observations: Vec::new(),
            output: None,
            output_id: None,
            stdin_bytes: None,
            stdout_bytes: None,
            stderr_bytes: None,
            timeout_ms: None,
            json: false,
        };
        assert(st.scan_view() == empty_build_scan()) by {
            assert(str_views(st.sources@) =~= Seq::<Seq<char>>::empty());
            assert(str_views(st.observations@) =~= Seq::<Seq<char>>::empty());
        }
        let mut index: usize = 3;
        while index < args.len()
            invariant
                3 <= index <= args.len(),
                argv == str_views(args@),
                limits_positive(input_limits),
                !starts_with(argv[1], "--"@),
                parse_id(argv[1]) is Some,
                !starts_with(argv[2], "--"@),
                valid_port_name(argv[2]),
                build_scan(argv, 3, empty_build_scan(), input_limits) == build_scan(argv, index as nat, st.scan_view(), input_limits),
            decreases args.len() - index,
        {
            build_step(args, &mut index, &mut st, input_limits)?;
        }
        if st.sources.len() == 0 {
            return Err(owned("gooir build requires at least one --source"));
        }
        let output_id = match st.output_id {
            Some(id) => id,
            None => return Err(required_error("build", "--output-id")),
        };
        let destination = match st.output {
            Some(p) => p,
            None => return Err(required_error("build", "--output")),
        };
        let toolchain = match st.toolchain {
            Some(p) => p,
            None => return Err(required_error("build", "--toolchain")),
        };
        let policy = match st.policy {
            Some(p) => p,
            None => return Err(required_error("build", "--policy")),
        };
        let source_authority = match st.source_authority {
            Some(p) => p,
            None => return Err(required_error("build", "--source-authority")),
        };
        let max_stdin_bytes = match st.stdin_bytes {
            Some(n) => n,
            None => return Err(required_error("build", "--stdin-bytes")),
        };
        let max_stdout_bytes = match st.stdout_bytes {
            Some(n) => n,
            None => return Err(required_error("build", "--stdout-bytes")),
        };
        let max_stderr_bytes = match st.stderr_bytes {
            Some(n) => n,
            None => return Err(required_error("build", "--stderr-bytes")),
        };
        let timeout_milliseconds = match st.timeout_ms {
            Some(n) => n,
            None => return Err(required_error("build", "--timeout-ms")),
        };
        Ok(BuildArguments {
            target: RouteOutputRef { capability, output_port },
            toolchain,
            sources: st.sources,
            policy,
            source_authority,
            observations: st.observations,
            output: ManagedOutput { id: output_id, destination },
            stdio_limits: StdioLimits { max_stdin_bytes, max_stdout_bytes, max_stderr_bytes, timeout_milliseconds },
            input_limits,
            json: st.json,
        })
    }
}


/// The command's help text.
pub const USAGE: &'static str = "\
gooir — compile and build over an explicitly installed capability graph

Compiler driver (GOOIR 0.1):
  gooir compile <target> --package DIR --policy JSON [--observation JSON]
      [--attester JSON] --stdin-bytes N --stdout-bytes N --stderr-bytes N
      --timeout-ms N [--json]

Managed admitted artifact build:
  gooir build <capability> <output-port> --toolchain DIR --source PATH
      [--source PATH] [--observation JSON] --source-authority JSON --policy JSON
      --output DIR --output-id NAME@VERSION --stdin-bytes N --stdout-bytes N
      --stderr-bytes N --timeout-ms N [--json]

The compile command admits explicit source observations, conservatively fixes
one complete route/offer/attester selection, invokes exact copied package
artifacts over bounded local stdio, independently assesses every candidate,
and admits each step before linking the next. Provider artifacts come only
from installed offers. Each attester binding names a complete authority plus
an exact installed package resource with the same copied digest. N must be
positive for every bound. Nothing is scanned, resolved through PATH, or
materialized to a target-specific file. JSON output is the existing derivation
Answer shape, not a new stable compile receipt protocol.
Policy, observation, and attester inputs must be regular files: no symlinks,
FIFOs, or directories. Each is bounded to 16 MiB and their aggregate to
64 MiB before JSON decoding.

The build command frames the explicitly named source files as one portable
ContentSet observation, derives one exact capability output from an installed
toolchain, resolves that output through the same admission ledger, and then
publishes it as one managed directory. Source PATH is both the local path and
the portable content path, so it must be relative and portable. Source bytes
use evidence kind org.gooi.cli.evidence/raw-file-sha256@1.0.0, whose digest is
SHA-256 over the exact file bytes. The explicit source authority must name that
evidence kind and the ContentSet value kind, and the policy must accept it.
The authority is still a caller-supplied untrusted claim; the CLI does not
claim it measured or executed the named observer. The named output must itself
be ContentSet. No backend, dialect parser, or executable is discovered.

Package inspection and planning (GOOIR 0.1):
  gooir facts --package DIR                 every value kind and its producers
  gooir capabilities --package DIR          every promise and exact offer
  gooir needs --package DIR                 promises with no implementation offer
  gooir doctor --package DIR                installed package-graph health
  gooir plan <target> --package DIR         complete provider-neutral graph slice

Repeat --package DIR to install explicit org.gooi.package/v1 directories in
dependency order. Nothing is discovered or installed implicitly. Planning
does not select a route, implementation, attester, or execution transport.

Legacy execution compatibility bridge (not the GOOIR 0.1 host boundary):
  gooir derive <target> --from FACT --pack MANIFEST [--plugin MANIFEST]

The compatibility bridge accepts repeatable legacy --pack and --plugin inputs.
It does not execute org.gooi.package/v1 offers. It is not a universal provider
transport. FACT is a serialized legacy FactInstance JSON document.

A target may be a full value-kind identity or an unambiguous bare name.";

pub open spec fn str_slice_views(v: Seq<&str>) -> Seq<Seq<char>> {
    Seq::new(v.len(), |i: int| v[i]@)
}

/// The first of `flags`, in their order, that occurs among the arguments.
pub open spec fn first_rejected(args: Seq<Seq<char>>, flags: Seq<Seq<char>>) -> Option<Seq<char>>
    decreases flags.len(),
{
    if flags.len() == 0 {
        None
    } else if args.contains(flags[0]) {
        Some(flags[0])
    } else {
        first_rejected(args, flags.drop_first())
    }
}

pub open spec fn rejected_msg(context: Seq<char>, flag: Seq<char>) -> Seq<char> {
    context + " does not accept "@ + flag + "\n\n"@ + USAGE@
}

fn contains_arg(args: &[String], flag: &str) -> (r: bool)
    ensures
        r == str_views(args@).contains(flag@),
{
    let mut i: usize = 0;
    while i < args.len()
        invariant
            i <= args.len(),
            forall|k: int| 0 <= k < i ==> str_views(args@)[k] != flag@,
        decreases args.len() - i,
    {
        if str_eq(args[i].as_str(), flag) {
            assert(str_views(args@)[i as int] == flag@);
            return true;
        }
        i = i + 1;
    }
    false
}

/// Refuses the first named flag that occurs among the arguments, with the
/// context that does not accept it and the usage text.
pub fn reject_flags(args: &[String], flags: &[&str], context: &str) -> (r: Result<(), String>)
    ensures
        r is Ok <==> first_rejected(str_views(args@), str_slice_views(flags@)) is None,
        r matches Err(e) ==> first_rejected(str_views(args@), str_slice_views(flags@)) matches Some(f) && e@
            == rejected_msg(context@, f),
{
    let ghost argv = str_views(args@);
    let ghost fv = str_slice_views(flags@);
    assert(fv.subrange(0, fv.len() as int) =~= fv);
    let mut i: usize = 0;
    while i < flags.len()
        invariant
            i <= flags.len(),
            argv == str_views(args@),
            fv == str_slice_views(flags@),
            first_rejected(argv, fv) == first_rejected(argv, fv.subrange(i as int, fv.len() as int)),
        decreases flags.len() - i,
    {
        let flag: &str = flags[i];
        let ghost rest = fv.subrange(i as int, fv.len() as int);
        assert(rest[0] == flag@);
        assert(rest.drop_first() =~= fv.subrange(i + 1, fv.len() as int));
        if contains_arg(args, flag) {
            let mut m = owned(context);
            m.append(" does not accept ");
            m.append(flag);
            m.append("\n\n");
            m.append(USAGE);
            return Err(m);
        }
        i = i + 1;
    }
    assert(fv.subrange(i as int, fv.len() as int) =~= Seq::<Seq<char>>::empty());
    Ok(())
}

/// The value after each occurrence of `flag`, in caller order. Installation
/// inputs are named by the caller, never discovered.
pub open spec fn values_after(args: Seq<Seq<char>>, flag: Seq<char>, i: int) -> Seq<Seq<char>>
    decreases args.len() - i,
{
    if i < 0 || i >= args.len() {
        Seq::empty()
    } else {
        (if args[i] == flag && i + 1 < args.len() {
            seq![args[i + 1]]
        } else {
            Seq::empty()
        }) + values_after(args, flag, i + 1)
    }
}

/// Every argument that directly follows `flag`, in order.
pub fn value_paths(args: &[String], flag: &str) -> (r: Vec<String>)
    ensures
        str_views(r@) == values_after(str_views(args@), flag@, 0),
{
    let ghost argv = str_views(args@);
    let mut out: Vec<String> = Vec::new();
    let mut i: usize = 0;
    while i < args.len()
        invariant
            i <= args.len(),
            argv == str_views(args@),
            str_views(out@) + values_after(argv, flag@, i as int) == values_after(argv, flag@, 0),
        decreases args.len() - i,
    {
        let ghost before = out@;
        if str_eq(args[i].as_str(), flag) && i + 1 < args.len() {
            let v = args[i + 1].clone();
            proof { lemma_push_views(out@, v); }
            out.push(v);
            assert(str_views(out@) + values_after(argv, flag@, i + 1) =~= str_views(before) + values_after(argv, flag@, i as int));
        } else {
            assert(str_views(out@) + values_after(argv, flag@, i + 1) =~= str_views(before) + values_after(argv, flag@, i as int));
        }
        i = i + 1;
    }
    assert(values_after(argv, flag@, i as int) =~= Seq::<Seq<char>>::empty());
    assert(str_views(out@) =~= str_views(out@) + Seq::<Seq<char>>::empty());
    out
}


/// One command line, read: what to run, with its arguments.
#[derive(Debug)]
pub enum Command {
    Help,
    Facts { packages: Vec<String> },
    Compile(CompileArguments),
    Build(BuildArguments),
    Capabilities { packages: Vec<String> },
    Needs { packages: Vec<String> },
    Doctor { packages: Vec<String> },
    Plan { target: String, packages: Vec<String> },
    Derive { target: String, packs: Vec<String>, plugins: Vec<String>, sources: Vec<String>, json: bool },
}

pub open spec fn package_flags() -> Seq<Seq<char>> {
    seq!["--pack"@, "--plugin"@]
}

pub open spec fn rejection(args: Seq<Seq<char>>, flags: Seq<Seq<char>>, context: Seq<char>) -> Option<Seq<char>> {
    match first_rejected(args, flags) {
        Some(f) => Some(rejected_msg(context, f)),
        None => None,
    }
}

pub open spec fn is_help(args: Seq<Seq<char>>) -> bool {
    args.len() == 0 || args[0] == "-h"@ || args[0] == "--help"@ || args[0] == "help"@
}

/// The refusal a command line gets before anything is installed or read,
/// if any.
pub open spec fn command_error(args: Seq<Seq<char>>) -> Option<Seq<char>> {
    if is_help(args) {
        None
    } else {
        let c = args[0];
        if c == "facts"@ {
            rejection(args, package_flags(), "GOOIR 0.1 package inspection"@)
        } else if c == "compile"@ {
            match compile_grammar(args, cli_limits()) {
                Err(e) => Some(e),
                Ok(_) => None,
            }
        } else if c == "build"@ {
            match build_grammar(args, cli_limits()) {
                Err(e) => Some(e),
                Ok(_) => None,
            }
        } else if c == "capabilities"@ {
            rejection(args, package_flags(), "GOOIR 0.1 package inspection"@)
        } else if c == "needs"@ || c == "doctor"@ {
            rejection(args, package_flags(), "GOOIR 0.1 package diagnostics"@)
        } else if c == "plan"@ {
            match rejection(args, package_flags(), "GOOIR 0.1 semantic planning"@) {
                Some(e) => Some(e),
                None => if args.len() < 2 {
                    Some("usage: gooir plan <target>"@)
                } else {
                    None
                },
            }
        } else if c == "derive"@ {
            match rejection(args, seq!["--package"@], "the legacy derive compatibility bridge"@) {
                Some(e) => Some(e),
                None => if args.len() < 2 {
                    Some("usage: gooir derive <target> --from FACT"@)
                } else {
                    None
                },
            }
        } else {
            Some("unknown command `"@ + c + "`\n\n"@ + USAGE@)
        }
    }
}

/// What a command line that is not refused is read as.
pub open spec fn command_reads(args: Seq<Seq<char>>, c: Command) -> bool {
    match c {
        Command::Help => is_help(args),
        Command::Facts { packages } => !is_help(args) && args[0] == "facts"@ && str_views(packages@)
            == values_after(args, "--package"@, 0),
        Command::Compile(a) => !is_help(args) && args[0] == "compile"@ && compile_grammar(args, cli_limits())
            == Ok::<CompileScan, Seq<char>>(
            compile_state(
                a.packages@,
                Some(a.policy),
                a.observations@,
                a.attesters@,
                Some(a.stdio_limits.max_stdin_bytes),
                Some(a.stdio_limits.max_stdout_bytes),
                Some(a.stdio_limits.max_stderr_bytes),
                Some(a.stdio_limits.timeout_milliseconds),
                a.json,
            ),
        ) && a.target@ == args[1] && a.input_limits == cli_limits(),
        Command::Build(b) => !is_help(args) && args[0] == "build"@ && build_grammar(args, cli_limits())
            == Ok::<BuildScan, Seq<char>>(build_scan_of(b)) && Some(b.target.capability@) == parse_id(args[1])
            && b.target.output_port@ == args[2] && b.input_limits == cli_limits(),
        Command::Capabilities { packages } => !is_help(args) && args[0] == "capabilities"@ && str_views(packages@)
            == values_after(args, "--package"@, 0),
        Command::Needs { packages } => !is_help(args) && args[0] == "needs"@ && str_views(packages@)
            == values_after(args, "--package"@, 0),
        Command::Doctor { packages } => !is_help(args) && args[0] == "doctor"@ && str_views(packages@)
            == values_after(args, "--package"@, 0),
        Command::Plan { target, packages } => !is_help(args) && args[0] == "plan"@ && args.len() >= 2 && target@
            == args[1] && str_views(packages@) == values_after(args, "--package"@, 0),
        Command::Derive { target, packs, plugins, sources, json } => !is_help(args) && args[0] == "derive"@
            && args.len() >= 2 && target@ == args[1] && str_views(packs@) == values_after(args, "--pack"@, 0)
            && str_views(plugins@) == values_after(args, "--plugin"@, 0) && str_views(sources@) == values_after(
            args,
            "--from"@,
            0,
        ) && json == args.contains("--json"@),
    }
}

fn package_rejection(args: &[String], context: &str) -> (r: Result<(), String>)
    ensures
        r is Ok <==> rejection(str_views(args@), package_flags(), context@) is None,
        r matches Err(e) ==> rejection(str_views(args@), package_flags(), context@) == Some(e@),
{
    let flags: [&str; 2] = ["--pack", "--plugin"];
    let r = reject_flags(args, flags.as_slice(), context);
    assert(str_slice_views(flags@) =~= package_flags());
    r
}

/// Reads one command line. Package inspection refuses legacy installation
/// flags, the legacy bridge refuses package flags, and `compile` and
/// `build` are read by their closed grammars.
pub fn command_line(args: &[String]) -> (r: Result<Command, String>)
    ensures
        r is Err <==> command_error(str_views(args@)) is Some,
        r matches Err(e) ==> command_error(str_views(args@)) == Some(e@),
        r matches Ok(c) ==> command_reads(str_views(args@), c),
{
    let ghost argv = str_views(args@);
    if args.len() == 0 {
        return Ok(Command::Help);
    }
    let first = args[0].as_str();
    assert(argv[0] == first@);
    if str_eq(first, "-h") || str_eq(first, "--help") || str_eq(first, "help") {
        return Ok(Command::Help);
    }
    if str_eq(first, "facts") {
        package_rejection(args, "GOOIR 0.1 package inspection")?;
        return Ok(Command::Facts { packages: value_paths(args, "--package") });
    }
    if str_eq(first, "compile") {
        let limits = compile_input_limits();
        return match CompileArguments::parse(args, limits) {
            Ok(a) => Ok(Command::Compile(a)),
            Err(e) => Err(e),
        };
    }
    if str_eq(first, "build") {
        let limits = compile_input_limits();
        return match BuildArguments::parse(args, limits) {
            Ok(b) => Ok(Command::Build(b)),
            Err(e) => Err(e),
        };
    }
    if str_eq(first, "capabilities") {
        package_rejection(args, "GOOIR 0.1 package inspection")?;
        return Ok(Command::Capabilities { packages: value_paths(args, "--package") });
    }
    if str_eq(first, "needs") {
        package_rejection(args, "GOOIR 0.1 package diagnostics")?;
        return Ok(Command::Needs { packages: value_paths(args, "--package") });
    }
    if str_eq(first, "doctor") {
        package_rejection(args, "GOOIR 0.1 package diagnostics")?;
        return Ok(Command::Doctor { packages: value_paths(args, "--package") });
    }
    if str_eq(first, "plan") {
        package_rejection(args, "GOOIR 0.1 semantic planning")?;
        if args.len() < 2 {
            return Err(owned("usage: gooir plan <target>"));
        }
        return Ok(Command::Plan { target: args[1].clone(), packages: value_paths(args, "--package") });
    }
    if str_eq(first, "derive") {
        let flags: [&str; 1] = ["--package"];
        assert(str_slice_views(flags@) =~= seq!["--package"@]);
        reject_flags(args, flags.as_slice(), "the legacy derive compatibility bridge")?;
        if args.len() < 2 {
            return Err(owned("usage: gooir derive <target> --from FACT"));
        }
        return Ok(Command::Derive {
            target: args[1].clone(),
            packs: value_paths(args, "--pack"),
            plugins: value_paths(args, "--plugin"),
            sources: value_paths(args, "--from"),
            json: contains_arg(args, "--json"),
        });
    }
    let mut m = owned("unknown command `");
    m.append(first);
    m.append("`\n\n");
    m.append(USAGE);
    Err(m)
}

/// The legacy bridge needs at least one input fact; checked once the named
/// packs and plugins are installed.
pub fn derive_sources_ready(sources: &Vec<String>) -> (r: Result<(), String>)
    ensures
        r is Ok <==> sources.len() > 0,
        r matches Err(e) ==> e@ == "usage: gooir derive <target> --from FACT"@,
{
    if sources.len() == 0 {
        return Err(owned("usage: gooir derive <target> --from FACT"));
    }
    Ok(())
}


/// Counts and bytes of the policy, observation and attester documents one
/// command has read, against its bounds.
#[derive(Debug)]
pub struct DocumentBudget {
    limits: CompileInputLimits,
    command: String,
    documents: usize,
    bytes: u64,
}

/// What a budget holds: its bounds, its command, and the documents and
/// bytes read so far.
pub struct BudgetView {
    pub limits: CompileInputLimits,
    pub command: Seq<char>,
    pub documents: usize,
    pub bytes: u64,
}

impl View for DocumentBudget {
    type V = BudgetView;

    closed spec fn view(&self) -> BudgetView {
        BudgetView { limits: self.limits, command: self.command@, documents: self.documents, bytes: self.bytes }
    }
}

impl DocumentBudget {
    /// The budget never exceeds its bounds.
    #[verifier::type_invariant]
    spec fn within_bounds(self) -> bool {
        self.documents <= self.limits.max_documents && self.bytes <= self.limits.max_total_document_bytes
    }

    /// Documents read so far, never more than the bound.
    pub fn documents(&self) -> (r: usize)
        ensures
            r == self@.documents,
            r <= self@.limits.max_documents,
    {
        proof {
            use_type_invariant(self);
        }
        self.documents
    }

    /// Bytes read so far, never more than the aggregate bound.
    pub fn bytes(&self) -> (r: u64)
        ensures
            r == self@.bytes,
            r <= self@.limits.max_total_document_bytes,
    {
        proof {
            use_type_invariant(self);
        }
        self.bytes
    }

    /// The budget's bounds.
    pub fn limits(&self) -> (r: CompileInputLimits)
        ensures
            r == self@.limits,
    {
        self.limits
    }

    /// A fresh budget for `compile`.
    pub fn new(limits: CompileInputLimits) -> (r: Result<Self, String>)
        ensures
            r is Ok <==> limits.max_documents > 0 && limits.max_document_bytes > 0 && limits.max_total_document_bytes > 0,
            r matches Ok(b) ==> b@.documents == 0 && b@.bytes == 0 && b@.limits == limits && b@.command == "compile"@,
            r matches Err(e) ==> e@ == "gooir "@ + "compile"@ + " document limits must be positive"@,
    {
        DocumentBudget::for_command(limits, "compile")
    }

    /// A fresh budget for one command; refuses zero bounds.
    pub fn for_command(limits: CompileInputLimits, command: &str) -> (r: Result<Self, String>)
        ensures
            r is Ok <==> limits.max_documents > 0 && limits.max_document_bytes > 0 && limits.max_total_document_bytes > 0,
            r matches Ok(b) ==> b@.documents == 0 && b@.bytes == 0 && b@.limits == limits && b@.command == command@,
            r matches Err(e) ==> e@ == "gooir "@ + command@ + " document limits must be positive"@,
    {
        if limits.max_documents == 0 || limits.max_document_bytes == 0 || limits.max_total_document_bytes == 0 {
            let mut m = owned("gooir ");
            m.append(command);
            m.append(" document limits must be positive");
            return Err(m);
        }
        Ok(DocumentBudget { limits, command: owned(command), documents: 0, bytes: 0 })
    }

    /// Before a document is opened: refuses one more than the count bound.
    pub fn check_slot(&self, path: &str) -> (r: Result<(), String>)
        ensures
            r is Ok <==> self@.documents != self@.limits.max_documents,
            r matches Err(e) ==> e@ == path@ + ": aggregate document count exceeds "@ + decimal(self@.limits.max_documents as nat),
    {
        if self.documents == self.limits.max_documents {
            let mut m = owned(path);
            m.append(": aggregate document count exceeds ");
            let d = decimal_string(self.limits.max_documents as u64);
            m.append(d.as_str());
            return Err(m);
        }
        Ok(())
    }

    /// Before a document is read: refuses what is not a regular file and a
    /// stated size over either bound; otherwise the most bytes to read.
    pub fn admit_size(&self, path: &str, is_regular_file: bool, size: u64) -> (r: Result<u64, String>)
        ensures
            r matches Ok(limit) ==> is_regular_file && size <= self@.limits.max_document_bytes && size
                <= self@.limits.max_total_document_bytes - self@.bytes && limit == (if self@.limits.max_document_bytes
                <= self@.limits.max_total_document_bytes - self@.bytes {
                self@.limits.max_document_bytes
            } else {
                (self@.limits.max_total_document_bytes - self@.bytes) as u64
            }),
            r is Err <==> !is_regular_file || size > self@.limits.max_document_bytes || size
                > self@.limits.max_total_document_bytes - self@.bytes,
            !is_regular_file ==> (r matches Err(e) && e@ == path@ + ": "@ + self@.command + " input must be a regular file"@),
    {
        proof {
            use_type_invariant(self);
        }
        if !is_regular_file {
            let mut m = owned(path);
            m.append(": ");
            m.append(self.command.as_str());
            m.append(" input must be a regular file");
            return Err(m);
        }
        if size > self.limits.max_document_bytes {
            let mut m = owned(path);
            m.append(": document size ");
            let d = decimal_string(size);
            m.append(d.as_str());
            m.append(" exceeds per-document limit ");
            let l = decimal_string(self.limits.max_document_bytes);
            m.append(l.as_str());
            return Err(m);
        }
        let remaining = self.limits.max_total_document_bytes - self.bytes;
        if size > remaining {
            let mut m = owned(path);
            m.append(": document size ");
            let d = decimal_string(size);
            m.append(d.as_str());
            m.append(" exceeds remaining aggregate limit ");
            let l = decimal_string(remaining);
            m.append(l.as_str());
            return Err(m);
        }
        if self.limits.max_document_bytes <= remaining {
            Ok(self.limits.max_document_bytes)
        } else {
            Ok(remaining)
        }
    }

    /// After a document is read: refuses bytes over either bound, and
    /// otherwise counts the document and its bytes.
    pub fn record(&mut self, path: &str, actual: u64) -> (r: Result<(), String>)
        ensures
            final(self)@.limits == old(self)@.limits,
            r is Ok <==> actual <= old(self)@.limits.max_document_bytes && actual <= old(self)@.limits.max_total_document_bytes
                - old(self)@.bytes && old(self)@.documents < old(self)@.limits.max_documents,
            r is Ok ==> final(self)@.documents == old(self)@.documents + 1 && final(self)@.bytes == old(self)@.bytes + actual,
            r is Err ==> final(self)@.documents == old(self)@.documents && final(self)@.bytes == old(self)@.bytes,
    {
        proof {
            use_type_invariant(&*self);
        }
        if actual > self.limits.max_document_bytes {
            let mut m = owned(path);
            m.append(": document exceeds per-document limit ");
            let l = decimal_string(self.limits.max_document_bytes);
            m.append(l.as_str());
            return Err(m);
        }
        let remaining = self.limits.max_total_document_bytes - self.bytes;
        if actual > remaining {
            let mut m = owned(path);
            m.append(": document exceeds aggregate byte limit ");
            let l = decimal_string(self.limits.max_total_document_bytes);
            m.append(l.as_str());
            return Err(m);
        }
        if self.documents >= self.limits.max_documents {
            let mut m = owned(path);
            m.append(": aggregate document count exceeds ");
            let d = decimal_string(self.limits.max_documents as u64);
            m.append(d.as_str());
            return Err(m);
        }
        self.documents = self.documents + 1;
        self.bytes = self.bytes + actual;
        Ok(())
    }
}

/// The package, name and version of the raw-file evidence kind.
pub const RAW_FILE_EVIDENCE_PACKAGE: &'static str = "org.gooi.cli.evidence";
pub const RAW_FILE_EVIDENCE_NAME: &'static str = "raw-file-sha256";
pub const RAW_FILE_EVIDENCE_VERSION: &'static str = "1.0.0";

/// The evidence kind of source bytes: SHA-256 over the exact file bytes.
pub fn raw_file_evidence_kind() -> (r: ExactId)
    ensures
        r@.package == RAW_FILE_EVIDENCE_PACKAGE@,
        r@.name == RAW_FILE_EVIDENCE_NAME@,
        r@.version == RAW_FILE_EVIDENCE_VERSION@,
{
    ExactId::new(RAW_FILE_EVIDENCE_PACKAGE, RAW_FILE_EVIDENCE_NAME, RAW_FILE_EVIDENCE_VERSION)
}

} // verus!
