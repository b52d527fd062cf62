//! What the server knows of the `bpftrace` program it drives: its version and the features that
//! version has, and the command lines it runs.
use vstd::prelude::*;

use crate::text::{
    chars_eq, first_index_of, lemma_first_index_of, parse_unsigned, spec_parse_unsigned, spec_split, spec_trim, split_ranges,
    str_chars, string_from_chars, trim_range, utf8_to_string,
};
use vstd::string::StringExecFns;
use vstd::utf8::{decode_utf8, valid_utf8};

verus! {

broadcast use vstd::string::group_string_axioms;

/// A bpftrace version: `major.minor.patch`, with the text after the first `-`, if any.
#[derive(Debug)]
pub struct Version {
    pub major: u16,
    pub minor: u16,
    pub patch: u16,
    pub hash: Option<String>,
}

/// A version as plain values.
pub struct VersionView {
    pub major: u16,
    pub minor: u16,
    pub patch: u16,
    pub hash: Option<Seq<char>>,
}

impl View for Version {
    type V = VersionView;

    open spec fn view(&self) -> VersionView {
        VersionView {
            major: self.major,
            minor: self.minor,
            patch: self.patch,
            hash: match self.hash {
                Some(h) => Some(h@),
                None => None,
            },
        }
    }
}

/// The installed bpftrace: its version and what that version supports.
#[derive(Debug)]
pub struct Bpftrace {
    pub version: Version,
    pub use_dry_run: bool,
    pub has_fentry_fexit: bool,
    pub has_dot_deref: bool,
}

/// A feature that depends on the bpftrace version.
pub enum BpftraceProperty {
    HasFentryFexit,
    HasDotDeref,
}

/// A version as one number that orders versions: major in bits 32 and up, minor in bits 16 to
/// 31, patch in bits 0 to 15.
pub open spec fn bpftrace_version(major: int, minor: int, patch: int) -> int {
    major * 0x1_0000_0000 + minor * 0x1_0000 + patch
}

/// The flat number of `ver`.
pub open spec fn spec_flat_version(ver: VersionView) -> int {
    bpftrace_version(ver.major as int, ver.minor as int, ver.patch as int)
}

/// The flat number of `ver`.
pub fn to_flat_version(ver: &Version) -> (r: u64)
    ensures
        r == spec_flat_version(ver@),
{
    let major = ver.major as u64;
    let minor = ver.minor as u64;
    let patch = ver.patch as u64;
    major * 0x1_0000_0000 + minor * 0x1_0000 + patch
}

/// Whether `a` comes before `b`: by major, then minor, then patch number.
pub open spec fn version_before(a: VersionView, b: VersionView) -> bool {
    ||| a.major < b.major
    ||| a.major == b.major && a.minor < b.minor
    ||| a.major == b.major && a.minor == b.minor && a.patch < b.patch
}

/// The flat number orders versions as their numbers do: by major, then minor, then patch.
pub proof fn lemma_flat_version_orders(a: VersionView, b: VersionView)
    ensures
        spec_flat_version(a) < spec_flat_version(b) <==> version_before(a, b),
        spec_flat_version(a) == spec_flat_version(b) <==> (a.major == b.major && a.minor == b.minor
            && a.patch == b.patch),
{
}

/// What bpftrace `ver` supports: `--dry-run` from 0.22, fentry/fexit probes from 0.20 and `.` on
/// pointers from 0.25.
pub open spec fn spec_properties(ver: VersionView) -> (bool, bool, bool) {
    (
        spec_flat_version(ver) >= bpftrace_version(0, 22, 0),
        spec_flat_version(ver) >= bpftrace_version(0, 20, 0),
        spec_flat_version(ver) >= bpftrace_version(0, 25, 0),
    )
}

/// What bpftrace `ver` supports.
pub fn bpftrace_properties(ver: Version) -> (r: Bpftrace)
    ensures
        r.version@ == ver@,
        (r.use_dry_run, r.has_fentry_fexit, r.has_dot_deref) == spec_properties(ver@),
{
    let flat = to_flat_version(&ver);
    Bpftrace {
        use_dry_run: flat >= 22 * 0x1_0000,
        has_fentry_fexit: flat >= 20 * 0x1_0000,
        has_dot_deref: flat >= 25 * 0x1_0000,
        version: ver,
    }
}

/// A bpftrace that can use `.` on pointers can dry-run programs, and one that can dry-run
/// programs has fentry/fexit probes.
pub proof fn lemma_properties_nest(b: Bpftrace)
    requires
        (b.use_dry_run, b.has_fentry_fexit, b.has_dot_deref) == spec_properties(b.version@),
    ensures
        b.has_dot_deref ==> b.use_dry_run,
        b.use_dry_run ==> b.has_fentry_fexit,
{
}

/// Whether the detected bpftrace has property `prop`; false while none is detected.
pub fn bpftrace_has_property(bpftrace: Option<&Bpftrace>, prop: BpftraceProperty) -> (r: bool)
    ensures
        r == match bpftrace {
            None => false,
            Some(b) => match prop {
                BpftraceProperty::HasFentryFexit => b.has_fentry_fexit,
                BpftraceProperty::HasDotDeref => b.has_dot_deref,
            },
        },
{
    let bpftrace = match bpftrace {
        Some(b) => b,
        None => {
            return false;
        },
    };
    match prop {
        BpftraceProperty::HasFentryFexit => bpftrace.has_fentry_fexit,
        BpftraceProperty::HasDotDeref => bpftrace.has_dot_deref,
    }
}

/// The major and minor version of the detected bpftrace; `(0, 0)` while none is detected.
pub fn bpftrace_major_minor_version(bpftrace: Option<&Bpftrace>) -> (r: (u16, u16))
    ensures
        r == match bpftrace {
            None => (0u16, 0u16),
            Some(b) => (b.version.major, b.version.minor),
        },
{
    match bpftrace {
        Some(b) => (b.version.major, b.version.minor),
        None => (0, 0),
    }
}

// ---------------------------------------------------------------------------------------------
// Parsing `bpftrace --version`
// ---------------------------------------------------------------------------------------------

/// What the first line of `bpftrace --version` says: after `bpftrace v`, the numbers up to the
/// first `-` (trimmed, split at `.`, the first three read as `u16`), and what follows that `-`.
pub open spec fn spec_parse_version(s: Seq<char>) -> Option<VersionView> {
    let prefix = "bpftrace v"@;
    if !(s.len() >= prefix.len() && s.take(prefix.len() as int) == prefix) {
        None
    } else {
        let rest = s.skip(prefix.len() as int);
        let numbers = match first_index_of(rest, '-') {
            Some(k) => rest.take(k),
            None => rest,
        };
        let hash = match first_index_of(rest, '-') {
            Some(k) => Some(rest.skip(k + 1)),
            None => None,
        };
        let nums = spec_split(spec_trim(numbers), '.');
        if nums.len() < 3 {
            None
        } else {
            match (
                spec_parse_unsigned(nums[0], 10, 0xffff),
                spec_parse_unsigned(nums[1], 10, 0xffff),
                spec_parse_unsigned(nums[2], 10, 0xffff),
            ) {
                (Some(major), Some(minor), Some(patch)) => Some(
                    VersionView { major: major as u16, minor: minor as u16, patch: patch as u16, hash },
                ),
                _ => None,
            }
        }
    }
}

/// Reads the version out of the output of `bpftrace --version`, such as `bpftrace v0.21.2`.
pub fn parse_version(version: &str) -> (r: Option<Version>)
    ensures
        match r {
            Some(v) => spec_parse_version(version@) == Some(v@),
            None => spec_parse_version(version@) is None,
        },
{
    proof {
        reveal_strlit("bpftrace v");
    }
    let s = str_chars(version);
    let prefix = str_chars("bpftrace v");
    if s.len() < prefix.len() || !chars_eq(&s, 0, prefix.len(), &prefix) {
        assert(s@.take(prefix@.len() as int) =~= s@.subrange(0, prefix@.len() as int));
        return None;
    }
    assert(s@.take(prefix@.len() as int) =~= s@.subrange(0, prefix@.len() as int));
    let start = prefix.len();
    let ghost rest = s@.skip(start as int);
    // The first '-' after the prefix.
    let mut k = start;
    while k < s.len() && s[k] != '-'
        invariant
            start <= k <= s@.len(),
            rest == s@.skip(start as int),
            forall|j: int| start <= j < k ==> s@[j] != '-',
        decreases s.len() - k,
    {
        k = k + 1;
    }
    proof {
        lemma_first_index_of(rest, '-');
        if k < s.len() {
            assert(rest[k - start] == '-');
            assert forall|j: int| 0 <= j < k - start implies rest[j] != '-' by {
                assert(rest[j] == s@[start + j]);
            }
            if let Some(f) = first_index_of(rest, '-') {
                if f < k - start {
                    assert(rest[f] == s@[start + f]);
                }
                assert(f == k - start);
            }
        } else {
            if let Some(f) = first_index_of(rest, '-') {
                assert(rest[f] == s@[start + f]);
            }
        }
    }
    let hash = if k < s.len() {
        assert(rest.skip(k - start + 1) =~= s@.subrange(k + 1, s@.len() as int));
        Some(string_from_chars(&s, k + 1, s.len()))
    } else {
        None
    };
    let ghost numbers = match first_index_of(rest, '-') {
        Some(f) => rest.take(f),
        None => rest,
    };
    assert(numbers =~= s@.subrange(start as int, k as int));
    let (a, b) = trim_range(&s, start, k);
    let pieces = split_ranges(&s, a, b, '.');
    proof {
        crate::text::lemma_split_nonempty(s@.subrange(a as int, b as int), '.');
    }
    if pieces.len() < 3 {
        return None;
    }
    let (m0, m1) = pieces[0];
    let (n0, n1) = pieces[1];
    let (p0, p1) = pieces[2];
    let major = match parse_unsigned(&s, m0, m1, 10, 0xffff) {
        Some(v) => v as u16,
        None => {
            return None;
        },
    };
    let minor = match parse_unsigned(&s, n0, n1, 10, 0xffff) {
        Some(v) => v as u16,
        None => {
            return None;
        },
    };
    let patch = match parse_unsigned(&s, p0, p1, 10, 0xffff) {
        Some(v) => v as u16,
        None => {
            return None;
        },
    };
    Some(Version { major, minor, patch, hash })
}

/// What the server learns from the output of `bpftrace --version`: the bpftrace it describes,
/// when the output is UTF-8 text holding a version.
pub open spec fn spec_properties_from_version(stdout: Seq<u8>) -> Option<(VersionView, (bool, bool, bool))> {
    if !valid_utf8(stdout) {
        None
    } else {
        match spec_parse_version(decode_utf8(stdout)) {
            None => None,
            Some(v) => Some((v, spec_properties(v))),
        }
    }
}

/// The bpftrace that the output `stdout` of `bpftrace --version` describes. `None` where the
/// output is not UTF-8 or holds no version.
pub fn bpftrace_properties_from_version(stdout: &[u8]) -> (r: Option<Bpftrace>)
    ensures
        match r {
            Some(b) => spec_properties_from_version(stdout@) == Some(
                (b.version@, (b.use_dry_run, b.has_fentry_fexit, b.has_dot_deref)),
            ),
            None => spec_properties_from_version(stdout@) is None,
        },
{
    let version_str = match utf8_to_string(stdout) {
        Some(s) => s,
        None => {
            return None;
        },
    };
    match parse_version(version_str.as_str()) {
        Some(v) => Some(bpftrace_properties(v)),
        None => None,
    }
}

// ---------------------------------------------------------------------------------------------
// Command lines
// ---------------------------------------------------------------------------------------------

/// The program that runs bpftrace: the custom command when one is set, else `bpftrace`.
pub open spec fn spec_bpftrace_program(custom: Option<Seq<char>>) -> Seq<char> {
    match custom {
        Some(c) => c,
        None => "bpftrace"@,
    }
}

/// The command shown to the user: the custom command, else `sudo bpftrace` when bpftrace is
/// known to need sudo, else `bpftrace`.
pub fn get_used_command(custom_cmd: Option<&str>, use_sudo: Option<bool>) -> (r: String)
    ensures
        r@ == match custom_cmd {
            Some(c) => c@,
            None => if use_sudo == Some(true) {
                "sudo bpftrace"@
            } else {
                "bpftrace"@
            },
        },
{
    match custom_cmd {
        Some(c) => String::from_str(c),
        None => if use_sudo == Some(true) {
            String::from_str("sudo bpftrace")
        } else {
            String::from_str("bpftrace")
        },
    }
}

/// The views of a sequence of strings.
pub open spec fn strings_view(v: Seq<String>) -> Seq<Seq<char>> {
    v.map_values(|t: String| t@)
}

/// The program and arguments that run bpftrace with `args`: through `sudo -n` when `use_sudo`.
pub fn sudo_bpftrace_command_line(custom_cmd: Option<&str>, use_sudo: bool, args: &Vec<String>) -> (r: (
    String,
    Vec<String>,
))
    ensures
        use_sudo ==> r.0@ == "sudo"@ && strings_view(r.1@) == seq!["-n"@, spec_bpftrace_program(
            match custom_cmd {
                Some(c) => Some(c@),
                None => None,
            },
        )] + strings_view(args@),
        !use_sudo ==> r.0@ == spec_bpftrace_program(
            match custom_cmd {
                Some(c) => Some(c@),
                None => None,
            },
        ) && strings_view(r.1@) == strings_view(args@),
{
    let cmd_str = match custom_cmd {
        Some(c) => String::from_str(c),
        None => String::from_str("bpftrace"),
    };
    let mut out: Vec<String> = Vec::new();
    let program = if use_sudo {
        out.push(String::from_str("-n"));
        out.push(cmd_str);
        String::from_str("sudo")
    } else {
        cmd_str
    };
    let ghost head = strings_view(out@);
    let mut i: usize = 0;
    while i < args.len()
        invariant
            i <= args@.len(),
            strings_view(out@) == head + strings_view(args@).take(i as int),
        decreases args.len() - i,
    {
        let ghost before = strings_view(out@);
        out.push(args[i].clone());
        assert(strings_view(out@) =~= before.push(args@[i as int]@));
        assert(strings_view(args@).take(i + 1) =~= strings_view(args@).take(i as int).push(
            args@[i as int]@,
        ));
        i = i + 1;
    }
    assert(strings_view(args@).take(args@.len() as int) =~= strings_view(args@));
    assert(head =~= (if use_sudo {
        seq!["-n"@, spec_bpftrace_program(
            match custom_cmd {
                Some(c) => Some(c@),
                None => None,
            },
        )]
    } else {
        Seq::<Seq<char>>::empty()
    }));
    (program, out)
}

/// The shell command that lists the probes matching `probes_str`, with their arguments when
/// `verbose`: `(CMD -l 'PROBES') 2>&1`, or `-l -v`, CMD prefixed with `sudo -n ` when bpftrace is
/// known to need sudo.
pub fn list_probes_shell_command(custom_cmd: Option<&str>, use_sudo: Option<bool>, probes_str: &str, verbose: bool) -> (r: String)
    ensures
        r@ == "("@ + (if use_sudo == Some(true) {
            "sudo -n "@
        } else {
            Seq::<char>::empty()
        }) + spec_bpftrace_program(
            match custom_cmd {
                Some(c) => Some(c@),
                None => None,
            },
        ) + (if verbose {
            " -l -v '"@
        } else {
            " -l '"@
        }) + probes_str@ + "') 2>&1"@,
{
    let mut s = String::from_str("(");
    if use_sudo == Some(true) {
        s.append("sudo -n ");
    }
    match custom_cmd {
        Some(c) => s.append(c),
        None => s.append("bpftrace"),
    }
    if verbose {
        s.append(" -l -v '");
    } else {
        s.append(" -l '");
    }
    s.append(probes_str);
    s.append("') 2>&1");
    assert(s@ =~= "("@ + (if use_sudo == Some(true) {
        "sudo -n "@
    } else {
        Seq::<char>::empty()
    }) + spec_bpftrace_program(
        match custom_cmd {
            Some(c) => Some(c@),
            None => None,
        },
    ) + (if verbose {
        " -l -v '"@
    } else {
        " -l '"@
    }) + probes_str@ + "') 2>&1"@);
    s
}

/// What to do next when running bpftrace with root permissions.
#[derive(Debug, PartialEq, Eq, Structural)]
pub enum CommandStep {
    /// Run bpftrace, through sudo or not.
    Run(bool),
    /// Hand back the outcome of the last run.
    ReturnLast,
    /// Remember whether sudo is needed and hand back the outcome of the last run.
    CacheAndReturn(bool),
    /// Fail: neither way of running bpftrace succeeded.
    PermissionDenied,
}

/// The next step of running bpftrace, from whether sudo is known to be needed and the last run.
pub open spec fn spec_command_step(cached: Option<bool>, last: Option<(bool, bool)>) -> CommandStep {
    match (cached, last) {
        (Some(b), None) => CommandStep::Run(b),
        (Some(_), Some(_)) => CommandStep::ReturnLast,
        (None, None) => CommandStep::Run(false),
        (None, Some((sudo, true))) => CommandStep::CacheAndReturn(sudo),
        (None, Some((false, false))) => CommandStep::Run(true),
        (None, Some((true, false))) => CommandStep::PermissionDenied,
    }
}

/// Before anything is known, bpftrace is run without sudo first; if that fails, with sudo; the
/// first way that succeeds is remembered, and when neither does the run is refused. Once it is
/// remembered, that way is run and its outcome handed back, whatever it is.
pub proof fn lemma_command_tries_plain_then_sudo(plain_ok: bool, sudo_ok: bool, cached: bool, ok: bool)
    ensures
        spec_command_step(None, None) == CommandStep::Run(false),
        spec_command_step(None, Some((false, plain_ok))) == (if plain_ok {
            CommandStep::CacheAndReturn(false)
        } else {
            CommandStep::Run(true)
        }),
        spec_command_step(None, Some((true, sudo_ok))) == (if sudo_ok {
            CommandStep::CacheAndReturn(true)
        } else {
            CommandStep::PermissionDenied
        }),
        spec_command_step(Some(cached), None) == CommandStep::Run(cached),
        spec_command_step(Some(cached), Some((cached, ok))) == CommandStep::ReturnLast,
{
}

/// The next step of running bpftrace: `cached` is whether sudo is known to be needed, `last` the
/// last run so far (through sudo or not, and whether it succeeded). When it is not known, bpftrace
/// is tried without sudo and then with it, and the first way that succeeds is remembered.
pub fn bpftrace_command_step(cached: Option<bool>, last: Option<(bool, bool)>) -> (r: CommandStep)
    ensures
        r == spec_command_step(cached, last),
{
    match (cached, last) {
        (Some(b), None) => CommandStep::Run(b),
        (Some(_), Some(_)) => CommandStep::ReturnLast,
        (None, None) => CommandStep::Run(false),
        (None, Some((sudo, true))) => CommandStep::CacheAndReturn(sudo),
        (None, Some((false, false))) => CommandStep::Run(true),
        (None, Some((true, false))) => CommandStep::PermissionDenied,
    }
}

/// The arguments that check program `prog` without running it: `--dry-run -e PROG` for a
/// bpftrace that has `--dry-run`, else `-d -e PROG`; `None` while no bpftrace is detected.
pub fn dry_run_args(bpftrace: Option<&Bpftrace>, prog: &str) -> (r: Option<Vec<String>>)
    ensures
        match bpftrace {
            None => r is None,
            Some(b) => r matches Some(v) && strings_view(v@) == seq![
                if b.use_dry_run {
                    "--dry-run"@
                } else {
                    "-d"@
                },
                "-e"@,
                prog@,
            ],
        },
{
    let b = match bpftrace {
        Some(b) => b,
        None => {
            return None;
        },
    };
    let mut v: Vec<String> = Vec::new();
    if b.use_dry_run {
        v.push(String::from_str("--dry-run"));
    } else {
        v.push(String::from_str("-d"));
    }
    v.push(String::from_str("-e"));
    v.push(String::from_str(prog));
    assert(strings_view(v@) =~= seq![
        if b.use_dry_run {
            "--dry-run"@
        } else {
            "-d"@
        },
        "-e"@,
        prog@,
    ]);
    Some(v)
}

/// The custom command to run bpftrace with: the one from the environment takes precedence over
/// the one from the client's configuration.
pub fn choose_custom_command(from_env: Option<String>, from_config: Option<String>) -> (r: Option<String>)
    ensures
        r == match from_env {
            Some(e) => Some(e),
            None => from_config,
        },
{
    match from_env {
        Some(e) => Some(e),
        None => from_config,
    }
}

} // verus!
