//! Decides whether a proposed command line is read-only enough to run
//! without asking the user first.
use vstd::prelude::*;
use vstd::string::*;
use crate::text::{
    argv_view, commands_view, all_digits, find_char, has_char, has_prefix, is_all_digits, is_ascii_digit,
    starts_with, str_eq, substring,
};
use crate::script::{parse_word_commands, word_commands};

verus! {

// ---------------------------------------------------------------------------
// User patterns

/// A user pattern admits a command when it equals it, or when it ends in
/// `"*"` and everything before the `"*"` (at least one word) is a prefix of it.
pub open spec fn pattern_admits(pat: Seq<Seq<char>>, cmd: Seq<Seq<char>>) -> bool {
    pat == cmd || (pat.len() >= 2 && pat.last() == "*"@ && pat.len() - 1 <= cmd.len()
        && cmd.subrange(0, pat.len() - 1) == pat.subrange(0, pat.len() - 1))
}

/// Some pattern of `trusted` admits `cmd`.
pub open spec fn trusted_admits(trusted: Seq<Seq<Seq<char>>>, cmd: Seq<Seq<char>>) -> bool {
    exists|i: int| 0 <= i < trusted.len() && pattern_admits(#[trigger] trusted[i], cmd)
}

fn argv_eq(a: &[String], b: &[String]) -> (r: bool)
    ensures
        r == (argv_view(a@) == argv_view(b@)),
{
    if a.len() != b.len() {
        assert(argv_view(a@).len() != argv_view(b@).len());
        return false;
    }
    let mut i: usize = 0;
    while i < a.len()
        invariant
            a.len() == b.len(),
            i <= a.len(),
            forall|j: int| 0 <= j < i ==> a@[j]@ == b@[j]@,
        decreases a.len() - i,
    {
        if !str_eq(a[i].as_str(), b[i].as_str()) {
            assert(argv_view(a@)[i as int] != argv_view(b@)[i as int]);
            return false;
        }
        i = i + 1;
    }
    assert(argv_view(a@) =~= argv_view(b@));
    true
}

fn pattern_admits_exec(pat: &[String], cmd: &[String]) -> (r: bool)
    ensures
        r == pattern_admits(argv_view(pat@), argv_view(cmd@)),
{
    if argv_eq(pat, cmd) {
        return true;
    }
    let n = pat.len();
    if n < 2 || !str_eq(pat[n - 1].as_str(), "*") {
        return false;
    }
    let base = n - 1;
    if base > cmd.len() {
        return false;
    }
    let mut i: usize = 0;
    while i < base
        invariant
            base == n - 1,
            n == pat.len(),
            base <= cmd.len(),
            i <= base,
            forall|j: int| 0 <= j < i ==> pat@[j]@ == cmd@[j]@,
        decreases base - i,
    {
        if !str_eq(pat[i].as_str(), cmd[i].as_str()) {
            assert(argv_view(cmd@).subrange(0, base as int)[i as int] != argv_view(
                pat@,
            ).subrange(0, base as int)[i as int]);
            return false;
        }
        i = i + 1;
    }
    assert(argv_view(cmd@).subrange(0, base as int) =~= argv_view(pat@).subrange(0, base as int));
    true
}

/// Whether some user pattern admits `command`.
pub fn is_command_trusted(command: &[String], trusted_commands: &[Vec<String>]) -> (r: bool)
    ensures
        r == trusted_admits(commands_view(trusted_commands@), argv_view(command@)),
{
    let mut i: usize = 0;
    while i < trusted_commands.len()
        invariant
            i <= trusted_commands.len(),
            forall|j: int|
                0 <= j < i ==> !pattern_admits(
                    #[trigger] commands_view(trusted_commands@)[j],
                    argv_view(command@),
                ),
        decreases trusted_commands.len() - i,
    {
        if pattern_admits_exec(trusted_commands[i].as_slice(), command) {
            assert(commands_view(trusted_commands@)[i as int] == argv_view(trusted_commands@[i as int]@));
            return true;
        }
        i = i + 1;
    }
    false
}

// ---------------------------------------------------------------------------
// Programs and their allow rules

/// Programs that only read, whatever their arguments.
pub open spec fn is_plain_reader(c: Seq<char>) -> bool {
    c == "cat"@ || c == "cd"@ || c == "echo"@ || c == "false"@ || c == "grep"@ || c == "head"@
        || c == "ls"@ || c == "nl"@ || c == "pwd"@ || c == "tail"@ || c == "true"@ || c == "wc"@
        || c == "which"@
}

/// Options of `find` that execute, delete or write.
pub open spec fn is_unsafe_find_option(a: Seq<char>) -> bool {
    a == "-exec"@ || a == "-execdir"@ || a == "-ok"@ || a == "-okdir"@ || a == "-delete"@ || a
        == "-fls"@ || a == "-fprint"@ || a == "-fprint0"@ || a == "-fprintf"@
}

/// Options of `rg` that run other programs, bare or with `=value`.
pub open spec fn is_unsafe_rg_option(a: Seq<char>) -> bool {
    a == "--search-zip"@ || a == "-z"@ || a == "--pre"@ || has_prefix(a, "--pre="@) || a
        == "--hostname-bin"@ || has_prefix(a, "--hostname-bin="@)
}

pub open spec fn is_git_read_subcommand(a: Seq<char>) -> bool {
    a == "branch"@ || a == "status"@ || a == "log"@ || a == "diff"@ || a == "show"@
}

/// A `sed -n` address: digits, optionally a comma and more digits, then `p`.
pub open spec fn is_sed_print_range(s: Seq<char>) -> bool {
    s.len() >= 1 && s.last() == 'p' && is_digit_range(s.drop_last())
}

pub open spec fn is_digit_range(core: Seq<char>) -> bool {
    (core.len() > 0 && all_digits(core)) || exists|k: int|
        0 < k < core.len() - 1 && core[k] == ',' && all_digits(core.subrange(0, k)) && all_digits(
            #[trigger] core.subrange(k + 1, core.len() as int),
        )
}

/// The allow rules keyed on the program name.
pub open spec fn allowed_by_rules(cmd: Seq<Seq<char>>) -> bool {
    if cmd.len() == 0 {
        false
    } else {
        let c0 = cmd[0];
        if is_plain_reader(c0) {
            true
        } else if c0 == "find"@ {
            forall|i: int| 0 <= i < cmd.len() ==> !is_unsafe_find_option(#[trigger] cmd[i])
        } else if c0 == "rg"@ {
            forall|i: int| 0 <= i < cmd.len() ==> !is_unsafe_rg_option(#[trigger] cmd[i])
        } else if c0 == "curl"@ {
            curl_is_safe(cmd)
        } else if c0 == "git"@ {
            cmd.len() > 1 && is_git_read_subcommand(cmd[1])
        } else if c0 == "cargo"@ {
            cmd.len() > 1 && cmd[1] == "check"@
        } else if c0 == "sed"@ {
            (cmd.len() == 3 || cmd.len() == 4) && cmd[1] == "-n"@ && is_sed_print_range(cmd[2]) && (
            cmd.len() == 3 || cmd[3].len() > 0)
        } else {
            false
        }
    }
}

// ---------------------------------------------------------------------------
// curl

/// Header names whose values carry credentials.
pub open spec fn is_credential_header(name: Seq<char>) -> bool {
    name == "authorization"@ || name == "proxy-authorization"@ || name == "cookie"@ || name
        == "set-cookie"@ || name == "x-api-key"@ || name == "x-auth-token"@ || name
        == "x-access-token"@ || name == "x-secret-key"@ || name == "api-key"@ || name == "apikey"@
        || name == "auth"@ || name == "authentication"@ || name == "bearer"@ || name == "token"@
        || name == "x-csrf-token"@ || name == "x-xsrf-token"@
}

/// Unicode white space (the `White_Space` property, as `char::is_whitespace`
/// documents it).
pub open spec fn is_blank(c: char) -> bool {
    let u = c as u32;
    (0x09 <= u && u <= 0x0D) || u == 0x20 || u == 0x85 || u == 0xA0 || u == 0x1680 || (0x2000 <= u
        && u <= 0x200A) || u == 0x2028 || u == 0x2029 || u == 0x202F || u == 0x205F || u == 0x3000
}

fn is_blank_exec(c: char) -> (r: bool)
    ensures
        r == is_blank(c),
{
    let u = c as u32;
    (0x09 <= u && u <= 0x0D) || u == 0x20 || u == 0x85 || u == 0xA0 || u == 0x1680 || (0x2000 <= u
        && u <= 0x200A) || u == 0x2028 || u == 0x2029 || u == 0x202F || u == 0x205F || u == 0x3000
}

/// The lower-case mapping of a string, character by character as Unicode
/// defines it.
pub uninterp spec fn lower_of(s: Seq<char>) -> Seq<char>;

/// Relies on `str::to_lowercase`: the Unicode lower-case mapping of `s`,
/// which depends on its characters alone.
#[verifier::external_body]
fn lowercase(s: &str) -> (r: String)
    ensures
        r@ == lower_of(s@),
{
    s.to_lowercase()
}

/// The upper-case mapping of a string, character by character as Unicode
/// defines it.
pub uninterp spec fn upper_of(s: Seq<char>) -> Seq<char>;

/// Relies on `str::to_uppercase`: the Unicode upper-case mapping of `s`,
/// which depends on its characters alone.
#[verifier::external_body]
fn uppercase(s: &str) -> (r: String)
    ensures
        r@ == upper_of(s@),
{
    s.to_uppercase()
}

/// `s` without its leading and trailing white space, as `str::trim`.
pub open spec fn trim_blanks(s: Seq<char>) -> Seq<char>
    decreases s.len(),
{
    if s.len() > 0 && is_blank(s[0]) {
        trim_blanks(s.drop_first())
    } else if s.len() > 0 && is_blank(s.last()) {
        trim_blanks(s.drop_last())
    } else {
        s
    }
}

/// A header is dangerous when it has no colon, or when its name (before the
/// first colon, white space trimmed, lower-cased) carries credentials.
pub open spec fn is_dangerous_header_spec(h: Seq<char>) -> bool {
    if has_char(h, ':') {
        let k = choose|k: int| 0 <= k < h.len() && h[k] == ':' && forall|j: int| 0 <= j < k ==> h[j] != ':';
        is_credential_header(lower_of(trim_blanks(h.subrange(0, k))))
    } else {
        true
    }
}

/// Options that upload, authenticate, change where curl writes or what it
/// reads as configuration, or turn the request into something other than a
/// plain download.
pub open spec fn is_unsafe_curl_flag(a: Seq<char>) -> bool {
    a == "-d"@ || has_prefix(a, "--data"@) || a == "-F"@ || has_prefix(a, "--form"@) || a == "-T"@
        || has_prefix(a, "--upload-file"@) || a == "-u"@ || has_prefix(a, "--user"@) || has_prefix(
        a,
        "--cookie"@,
    ) || has_prefix(a, "--basic"@) || has_prefix(a, "--digest"@) || has_prefix(a, "--ntlm"@)
        || has_prefix(a, "--negotiate"@) || has_prefix(a, "--anyauth"@) || has_prefix(
        a,
        "--proxy-"@,
    ) || has_prefix(a, "--cert"@) || has_prefix(a, "--key"@) || has_prefix(a, "--pass"@)
        || has_prefix(a, "--engine"@) || has_prefix(a, "--cacert"@) || has_prefix(a, "--capath"@)
        || has_prefix(a, "--pinnedpubkey"@) || a == "-I"@ || a == "--head"@ || a == "--post301"@
        || a == "--post302"@ || a == "--post303"@ || a == "-e"@ || a == "--referer"@ || a == "-A"@
        || a == "--user-agent"@ || a == "-c"@ || a == "-D"@ || has_prefix(a, "--dump-header"@) || a
        == "-K"@ || has_prefix(a, "--config"@)
}

/// The argument at `i` makes the curl command unsafe.
pub open spec fn curl_arg_unsafe(cmd: Seq<Seq<char>>, i: int) -> bool {
    let a = cmd[i];
    is_unsafe_curl_flag(a) || ((a == "-X"@ || a == "--request"@) && i + 1 < cmd.len() && upper_of(
        cmd[i + 1],
    ) != "GET"@ && upper_of(cmd[i + 1]) != "HEAD"@) || ((a == "-H"@ || a == "--header"@) && i + 1
        < cmd.len() && is_dangerous_header_spec(cmd[i + 1])) || (has_prefix(a, "--header="@)
        && is_dangerous_header_spec(a.subrange(9, a.len() as int)))
}

/// A curl command that only downloads.
pub open spec fn curl_is_safe(cmd: Seq<Seq<char>>) -> bool {
    cmd.len() > 0 && cmd[0] == "curl"@ && forall|i: int| 0 <= i < cmd.len() ==> !curl_arg_unsafe(cmd, i)
}

/// The whole classifier: a trusted pattern, an allow rule, or `bash -lc` on a
/// script of plain commands each trusted or allowed.
pub open spec fn known_safe(cmd: Seq<Seq<char>>, trusted: Seq<Seq<Seq<char>>>) -> bool {
    trusted_admits(trusted, cmd) || allowed_by_rules(cmd) || (cmd.len() == 3 && cmd[0] == "bash"@
        && cmd[1] == "-lc"@ && match word_commands(cmd[2]) {
        Some(cmds) => cmds.len() > 0 && forall|i: int|
            0 <= i < cmds.len() ==> trusted_admits(trusted, #[trigger] cmds[i]) || allowed_by_rules(
                cmds[i],
            ),
        None => false,
    })
}

// ---------------------------------------------------------------------------
// Executable rules

fn is_plain_reader_exec(c: &str) -> (r: bool)
    ensures
        r == is_plain_reader(c@),
{
    str_eq(c, "cat") || str_eq(c, "cd") || str_eq(c, "echo") || str_eq(c, "false") || str_eq(c, "grep")
        || str_eq(c, "head") || str_eq(c, "ls") || str_eq(c, "nl") || str_eq(c, "pwd") || str_eq(
        c,
        "tail",
    ) || str_eq(c, "true") || str_eq(c, "wc") || str_eq(c, "which")
}

fn is_unsafe_find_option_exec(a: &str) -> (r: bool)
    ensures
        r == is_unsafe_find_option(a@),
{
    str_eq(a, "-exec") || str_eq(a, "-execdir") || str_eq(a, "-ok") || str_eq(a, "-okdir") || str_eq(
        a,
        "-delete",
    ) || str_eq(a, "-fls") || str_eq(a, "-fprint") || str_eq(a, "-fprint0") || str_eq(a, "-fprintf")
}

fn is_unsafe_rg_option_exec(a: &str) -> (r: bool)
    ensures
        r == is_unsafe_rg_option(a@),
{
    str_eq(a, "--search-zip") || str_eq(a, "-z") || str_eq(a, "--pre") || starts_with(a, "--pre=")
        || str_eq(a, "--hostname-bin") || starts_with(a, "--hostname-bin=")
}

fn is_git_read_subcommand_exec(a: &str) -> (r: bool)
    ensures
        r == is_git_read_subcommand(a@),
{
    str_eq(a, "branch") || str_eq(a, "status") || str_eq(a, "log") || str_eq(a, "diff") || str_eq(
        a,
        "show",
    )
}

/// Whether `arg` is a `sed -n` print address such as `10p` or `1,5p`.
pub fn is_valid_sed_n_arg(arg: Option<&str>) -> (r: bool)
    ensures
        r == match arg {
            Some(s) => is_sed_print_range(s@),
            None => false,
        },
{
    let s = match arg {
        Some(s) => s,
        None => return false,
    };
    let n = s.unicode_len();
    if n == 0 || s.get_char(n - 1) != 'p' {
        return false;
    }
    let core_string = substring(s, 0, n - 1);
    let core = core_string.as_str();
    assert(core@ =~= s@.drop_last());
    let m = core.unicode_len();
    match find_char(core, ',') {
        None => {
            let ok = m > 0 && is_all_digits(core);
            if !ok {
                assert forall|k: int|
                    0 < k < core@.len() - 1 && core@[k] == ',' implies !(all_digits(
                        core@.subrange(0, k),
                    ) && all_digits(#[trigger] core@.subrange(k + 1, core@.len() as int))) by {
                    assert(has_char(core@, ','));
                }
            }
            ok
        },
        Some(k) => {
            assert(!all_digits(core@)) by {
                assert(!is_ascii_digit(core@[k as int]));
            }
            let a = substring(core, 0, k);
            let b = substring(core, k + 1, m);
            let ok = k > 0 && k + 1 < m && is_all_digits(a.as_str()) && is_all_digits(b.as_str());
            if !ok {
                assert forall|j: int|
                    0 < j < core@.len() - 1 && core@[j] == ',' implies !(all_digits(
                        core@.subrange(0, j),
                    ) && all_digits(#[trigger] core@.subrange(j + 1, core@.len() as int))) by {
                    if j < k {
                    } else if j > k {
                        assert(core@.subrange(0, j)[k as int] == ',');
                    } else {
                    }
                }
            }
            ok
        },
    }
}

/// Removes leading and trailing blanks.
fn trim_blanks_exec(s: &str) -> (r: String)
    ensures
        r@ == trim_blanks(s@),
{
    let n = s.unicode_len();
    let mut lo: usize = 0;
    let mut hi: usize = n;
    assert(s@.subrange(0, n as int) =~= s@);
    loop
        invariant
            n == s@.len(),
            lo <= hi <= n,
            trim_blanks(s@.subrange(lo as int, hi as int)) == trim_blanks(s@),
        ensures
            lo <= hi <= n,
            s@.subrange(lo as int, hi as int) == trim_blanks(s@),
        decreases hi - lo,
    {
        let sub = Ghost(s@.subrange(lo as int, hi as int));
        if lo < hi && is_blank_exec(s.get_char(lo)) {
            assert(sub@.drop_first() =~= s@.subrange(lo + 1, hi as int));
            lo = lo + 1;
        } else if lo < hi && is_blank_exec(s.get_char(hi - 1)) {
            assert(sub@.drop_last() =~= s@.subrange(lo as int, hi - 1));
            hi = hi - 1;
        } else {
            assert(lo < hi ==> sub@[0] == s@[lo as int] && sub@.last() == s@[hi - 1]);
            assert(trim_blanks(sub@) == sub@);
            break;
        }
    }
    substring(s, lo, hi)
}

/// Whether a `-H` value is dangerous: no colon at all, or a name that
/// carries credentials.
pub fn is_dangerous_header(header_value: &str) -> (r: bool)
    ensures
        r == is_dangerous_header_spec(header_value@),
{
    match find_char(header_value, ':') {
        None => true,
        Some(k) => {
            proof {
                let h = header_value@;
                assert(has_char(h, ':'));
                let kk = choose|kk: int|
                    0 <= kk < h.len() && h[kk] == ':' && forall|j: int| 0 <= j < kk ==> h[j] != ':';
                assert(kk == k as int) by {
                    if kk < k {
                    } else if kk > k {
                    }
                }
            }
            let name = substring(header_value, 0, k);
            let trimmed = trim_blanks_exec(name.as_str());
            let lower = lowercase(trimmed.as_str());
            is_credential_header_name(lower.as_str())
        },
    }
}

/// Whether a lower-cased header name carries credentials.
pub fn is_credential_header_name(name: &str) -> (r: bool)
    ensures
        r == is_credential_header(name@),
{
    str_eq(name, "authorization") || str_eq(name, "proxy-authorization") || str_eq(name, "cookie")
        || str_eq(name, "set-cookie") || str_eq(name, "x-api-key") || str_eq(name, "x-auth-token")
        || str_eq(name, "x-access-token") || str_eq(name, "x-secret-key") || str_eq(name, "api-key")
        || str_eq(name, "apikey") || str_eq(name, "auth") || str_eq(name, "authentication") || str_eq(
        name,
        "bearer",
    ) || str_eq(name, "token") || str_eq(name, "x-csrf-token") || str_eq(name, "x-xsrf-token")
}

fn is_unsafe_curl_flag_exec(a: &str) -> (r: bool)
    ensures
        r == is_unsafe_curl_flag(a@),
{
    str_eq(a, "-d") || starts_with(a, "--data") || str_eq(a, "-F") || starts_with(a, "--form")
        || str_eq(a, "-T") || starts_with(a, "--upload-file") || str_eq(a, "-u") || starts_with(
        a,
        "--user",
    ) || starts_with(a, "--cookie") || starts_with(a, "--basic") || starts_with(a, "--digest")
        || starts_with(a, "--ntlm") || starts_with(a, "--negotiate") || starts_with(a, "--anyauth")
        || starts_with(a, "--proxy-") || starts_with(a, "--cert") || starts_with(a, "--key")
        || starts_with(a, "--pass") || starts_with(a, "--engine") || starts_with(a, "--cacert")
        || starts_with(a, "--capath") || starts_with(a, "--pinnedpubkey") || str_eq(a, "-I")
        || str_eq(a, "--head") || str_eq(a, "--post301") || str_eq(a, "--post302") || str_eq(
        a,
        "--post303",
    ) || str_eq(a, "-e") || str_eq(a, "--referer") || str_eq(a, "-A") || str_eq(a, "--user-agent")
        || str_eq(a, "-c") || str_eq(a, "-D") || starts_with(a, "--dump-header") || str_eq(a, "-K")
        || starts_with(a, "--config")
}

fn curl_arg_unsafe_exec(command: &[String], i: usize) -> (r: bool)
    requires
        i < command@.len(),
    ensures
        r == curl_arg_unsafe(argv_view(command@), i as int),
{
    let a = command[i].as_str();
    if is_unsafe_curl_flag_exec(a) {
        return true;
    }
    if (str_eq(a, "-X") || str_eq(a, "--request")) && i + 1 < command.len() {
        let m = uppercase(command[i + 1].as_str());
        if !str_eq(m.as_str(), "GET") && !str_eq(m.as_str(), "HEAD") {
            return true;
        }
    }
    if (str_eq(a, "-H") || str_eq(a, "--header")) && i + 1 < command.len() {
        if is_dangerous_header(command[i + 1].as_str()) {
            return true;
        }
    }
    if starts_with(a, "--header=") {
        proof {
            reveal_strlit("--header=");
        }
        let value = substring(a, 9, a.unicode_len());
        if is_dangerous_header(value.as_str()) {
            return true;
        }
    }
    false
}

/// Whether `command` is a curl invocation that only downloads.
pub fn is_safe_curl_command(command: &[String]) -> (r: bool)
    ensures
        r == curl_is_safe(argv_view(command@)),
{
    if command.len() == 0 || !str_eq(command[0].as_str(), "curl") {
        return false;
    }
    let mut i: usize = 0;
    while i < command.len()
        invariant
            i <= command@.len(),
            forall|j: int| 0 <= j < i ==> !curl_arg_unsafe(argv_view(command@), j),
        decreases command.len() - i,
    {
        if curl_arg_unsafe_exec(command, i) {
            return false;
        }
        i = i + 1;
    }
    true
}

/// Whether no argument is an unsafe `find` option.
fn find_is_safe(command: &[String]) -> (r: bool)
    ensures
        r == forall|i: int|
            0 <= i < command@.len() ==> !is_unsafe_find_option(#[trigger] argv_view(command@)[i]),
{
    let mut i: usize = 0;
    while i < command.len()
        invariant
            i <= command@.len(),
            forall|j: int| 0 <= j < i ==> !is_unsafe_find_option(#[trigger] argv_view(command@)[j]),
        decreases command.len() - i,
    {
        if is_unsafe_find_option_exec(command[i].as_str()) {
            assert(is_unsafe_find_option(argv_view(command@)[i as int]));
            return false;
        }
        i = i + 1;
    }
    true
}

/// Whether no argument is an unsafe `rg` option.
fn rg_is_safe(command: &[String]) -> (r: bool)
    ensures
        r == forall|i: int|
            0 <= i < command@.len() ==> !is_unsafe_rg_option(#[trigger] argv_view(command@)[i]),
{
    let mut i: usize = 0;
    while i < command.len()
        invariant
            i <= command@.len(),
            forall|j: int| 0 <= j < i ==> !is_unsafe_rg_option(#[trigger] argv_view(command@)[j]),
        decreases command.len() - i,
    {
        if is_unsafe_rg_option_exec(command[i].as_str()) {
            assert(is_unsafe_rg_option(argv_view(command@)[i as int]));
            return false;
        }
        i = i + 1;
    }
    true
}

/// Whether the allow rules keyed on the program name accept `command`.
pub fn is_safe_to_call_with_exec(command: &[String]) -> (r: bool)
    ensures
        r == allowed_by_rules(argv_view(command@)),
{
    if command.len() == 0 {
        return false;
    }
    let c0 = command[0].as_str();
    let n = command.len();
    if is_plain_reader_exec(c0) {
        true
    } else if str_eq(c0, "find") {
        find_is_safe(command)
    } else if str_eq(c0, "rg") {
        rg_is_safe(command)
    } else if str_eq(c0, "curl") {
        is_safe_curl_command(command)
    } else if str_eq(c0, "git") {
        n > 1 && is_git_read_subcommand_exec(command[1].as_str())
    } else if str_eq(c0, "cargo") {
        n > 1 && str_eq(command[1].as_str(), "check")
    } else if str_eq(c0, "sed") {
        (n == 3 || n == 4) && str_eq(command[1].as_str(), "-n") && is_valid_sed_n_arg(
            Some(command[2].as_str()),
        ) && (n == 3 || command[3].as_str().unicode_len() > 0)
    } else {
        false
    }
}

/// Whether `command` may run without asking: a trusted pattern admits it, an
/// allow rule accepts it, or it is `bash -lc` on a script of plain commands
/// each of which is trusted or allowed.
pub fn is_known_safe_command(command: &[String], trusted_commands: &[Vec<String>]) -> (r: bool)
    ensures
        r == known_safe(argv_view(command@), commands_view(trusted_commands@)),
{
    if is_command_trusted(command, trusted_commands) {
        return true;
    }
    if is_safe_to_call_with_exec(command) {
        return true;
    }
    if command.len() == 3 && str_eq(command[0].as_str(), "bash") && str_eq(command[1].as_str(), "-lc") {
        let parsed = parse_word_commands(command[2].as_str());
        assert(argv_view(command@)[2] == command@[2]@);
        match parsed {
            Some(cmds) => {
                if cmds.len() == 0 {
                    return false;
                }
                let mut i: usize = 0;
                while i < cmds.len()
                    invariant
                        i <= cmds@.len(),
                        command@.len() == 3,
                        !trusted_admits(commands_view(trusted_commands@), argv_view(command@)),
                        !allowed_by_rules(argv_view(command@)),
                        argv_view(command@)[0] == "bash"@,
                        argv_view(command@)[1] == "-lc"@,
                        word_commands(argv_view(command@)[2]) == Some(commands_view(cmds@)),
                        forall|j: int|
                            0 <= j < i ==> trusted_admits(
                                commands_view(trusted_commands@),
                                #[trigger] commands_view(cmds@)[j],
                            ) || allowed_by_rules(commands_view(cmds@)[j]),
                    decreases cmds.len() - i,
                {
                    let c = cmds[i].as_slice();
                    assert(commands_view(cmds@)[i as int] == argv_view(c@));
                    if !is_command_trusted(c, trusted_commands) && !is_safe_to_call_with_exec(c) {
                        assert(!(trusted_admits(
                            commands_view(trusted_commands@),
                            commands_view(cmds@)[i as int],
                        ) || allowed_by_rules(commands_view(cmds@)[i as int])));
                        return false;
                    }
                    i = i + 1;
                }
                true
            },
            None => false,
        }
    } else {
        false
    }
}

// ---------------------------------------------------------------------------
// Laws

/// The classifier is a function of the characters of its inputs alone: equal
/// commands and equal pattern lists always get the same answer.
pub proof fn lemma_classifier_deterministic(
    c1: Seq<String>,
    c2: Seq<String>,
    t1: Seq<Vec<String>>,
    t2: Seq<Vec<String>>,
)
    requires
        argv_view(c1) == argv_view(c2),
        commands_view(t1) == commands_view(t2),
    ensures
        known_safe(argv_view(c1), commands_view(t1)) == known_safe(argv_view(c2), commands_view(t2)),
{
}

proof fn lemma_trusted_grows(t: Seq<Seq<Seq<char>>>, p: Seq<Seq<char>>, c: Seq<Seq<char>>)
    requires
        trusted_admits(t, c),
    ensures
        trusted_admits(t.push(p), c),
{
    let i = choose|i: int| 0 <= i < t.len() && pattern_admits(#[trigger] t[i], c);
    assert(t.push(p)[i] == t[i]);
}

/// Adding a pattern to the trusted list never turns a safe answer into an
/// unsafe one.
pub proof fn lemma_classifier_monotone(cmd: Seq<String>, trusted: Seq<Vec<String>>, extra: Vec<String>)
    requires
        known_safe(argv_view(cmd), commands_view(trusted)),
    ensures
        known_safe(argv_view(cmd), commands_view(trusted.push(extra))),
{
    let t = commands_view(trusted);
    let p = argv_view(extra@);
    assert(commands_view(trusted.push(extra)) =~= t.push(p));
    let c = argv_view(cmd);
    if trusted_admits(t, c) {
        lemma_trusted_grows(t, p, c);
    } else if allowed_by_rules(c) {
    } else {
        let cmds = word_commands(c[2]).unwrap();
        assert forall|i: int| 0 <= i < cmds.len() implies trusted_admits(t.push(p), #[trigger] cmds[i])
            || allowed_by_rules(cmds[i]) by {
            if trusted_admits(t, cmds[i]) {
                lemma_trusted_grows(t, p, cmds[i]);
            }
        }
    }
}

} // verus!
