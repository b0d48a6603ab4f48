//! The settings of a database, read from command-line arguments of the form `--name=value`.

use vstd::prelude::*;
use crate::constants::{HTTP_SERVER_DEFAULT_PORT, TCP_SERVER_DEFAULT_PORT};
use crate::storage::ecc::ECCMode;
use crate::storage::log_version::LogVersion;
use crate::utils::decimal::{parse_u16, spec_parse_unsigned};
use crate::utils::text::{str_chars, string_from_chars};

verus! {

/// Where the log lives, how it is protected, where the servers listen, and the version of the
/// database.
#[derive(Debug, Clone)]
pub struct DBPreferences {
    pub log_dir: String,
    pub ecc_mode: ECCMode,
    pub http_port: Option<u16>,
    pub tcp_port: Option<u16>,
    pub db_version: LogVersion,
}

/// Preferences as plain values.
pub struct PreferencesView {
    pub log_dir: Seq<char>,
    pub ecc_mode: ECCMode,
    pub http_port: Option<u16>,
    pub tcp_port: Option<u16>,
    pub db_version: (u8, u8, u8),
}

impl View for DBPreferences {
    type V = PreferencesView;

    open spec fn view(&self) -> PreferencesView {
        PreferencesView {
            log_dir: self.log_dir@,
            ecc_mode: self.ecc_mode,
            http_port: self.http_port,
            tcp_port: self.tcp_port,
            db_version: self.db_version@,
        }
    }
}

/// The directory of the log where no argument names one.
pub open spec fn default_log_dir() -> Seq<char> {
    "/var/immux_log"@
}

/// The version of the database that this library is.
pub open spec fn library_version() -> (u8, u8, u8) {
    (0, 1, 0)
}

/// The preferences where no argument says otherwise.
pub open spec fn default_preferences() -> PreferencesView {
    PreferencesView {
        log_dir: default_log_dir(),
        ecc_mode: ECCMode::Identity,
        http_port: Some(HTTP_SERVER_DEFAULT_PORT),
        tcp_port: Some(TCP_SERVER_DEFAULT_PORT),
        db_version: library_version(),
    }
}

/// `s` with every occurrence of `pattern` taken out, the occurrences found from left to
/// right without overlapping (as `str::replace` with the empty string finds them).
pub open spec fn spec_remove_all(s: Seq<char>, pattern: Seq<char>) -> Seq<char>
    decreases s.len(),
{
    if pattern.len() == 0 || s.len() < pattern.len() {
        s
    } else if s.take(pattern.len() as int) == pattern {
        spec_remove_all(s.skip(pattern.len() as int), pattern)
    } else {
        seq![s[0]] + spec_remove_all(s.skip(1), pattern)
    }
}

pub open spec fn data_dir_flag() -> Seq<char> {
    "--data-dir="@
}

pub open spec fn ecc_mode_flag() -> Seq<char> {
    "--ecc-mode="@
}

pub open spec fn http_port_flag() -> Seq<char> {
    "--http-port="@
}

pub open spec fn tcp_port_flag() -> Seq<char> {
    "--tcp-port="@
}

/// What one argument changes: the flag it starts with names the setting; the rest of the
/// argument (every occurrence of the flag taken out) is its value. A mode other than `TMR`,
/// or a port that is not a number of at most 65535, changes nothing.
pub open spec fn spec_apply_arg(p: PreferencesView, arg: Seq<char>) -> PreferencesView {
    if arg.len() >= data_dir_flag().len() && arg.take(data_dir_flag().len() as int) == data_dir_flag() {
        PreferencesView { log_dir: spec_remove_all(arg, data_dir_flag()), ..p }
    } else if arg.len() >= ecc_mode_flag().len() && arg.take(ecc_mode_flag().len() as int) == ecc_mode_flag() {
        if spec_remove_all(arg, ecc_mode_flag()) == "TMR"@ {
            PreferencesView { ecc_mode: ECCMode::TMR, ..p }
        } else {
            p
        }
    } else if arg.len() >= http_port_flag().len() && arg.take(http_port_flag().len() as int) == http_port_flag() {
        match spec_parse_unsigned(spec_remove_all(arg, http_port_flag()), 0xffff) {
            Some(v) => PreferencesView { http_port: Some(v as u16), ..p },
            None => p,
        }
    } else if arg.len() >= tcp_port_flag().len() && arg.take(tcp_port_flag().len() as int) == tcp_port_flag() {
        match spec_parse_unsigned(spec_remove_all(arg, tcp_port_flag()), 0xffff) {
            Some(v) => PreferencesView { tcp_port: Some(v as u16), ..p },
            None => p,
        }
    } else {
        p
    }
}

/// The preferences that the arguments give, each applied in turn to the defaults.
pub open spec fn spec_from_cli_args(args: Seq<Seq<char>>) -> PreferencesView
    decreases args.len(),
{
    if args.len() == 0 {
        default_preferences()
    } else {
        spec_apply_arg(spec_from_cli_args(args.drop_last()), args.last())
    }
}

/// Whether `chars` holds `pattern` from `start`.
fn holds_at(chars: &[char], start: usize, pattern: &[char]) -> (result: bool)
    requires
        start <= chars@.len(),
    ensures
        result == (chars@.len() - start >= pattern@.len() && chars@.subrange(start as int, start + pattern@.len()) == pattern@),
{
    let _ = chars.len();
    if chars.len() - start < pattern.len() {
        return false;
    }
    let mut i: usize = 0;
    while i < pattern.len()
        invariant
            i <= pattern@.len(),
            start + pattern@.len() <= chars@.len(),
            chars@.len() <= usize::MAX,
            forall|j: int| 0 <= j < i ==> chars@[start + j] == pattern@[j],
        decreases pattern@.len() - i,
    {
        if chars[start + i] != pattern[i] {
            assert(chars@.subrange(start as int, start + pattern@.len())[i as int] != pattern@[i as int]);
            return false;
        }
        i = i + 1;
    }
    assert(chars@.subrange(start as int, start + pattern@.len()) =~= pattern@);
    true
}

/// `chars` with every occurrence of `pattern` taken out; see `spec_remove_all`.
fn remove_all(chars: &[char], pattern: &[char]) -> (result: Vec<char>)
    ensures
        result@ == spec_remove_all(chars@, pattern@),
{
    let _ = chars.len();
    let mut result: Vec<char> = Vec::new();
    let mut i: usize = 0;
    assert(chars@.skip(0) =~= chars@);
    assert(result@ + chars@ =~= chars@);
    while i < chars.len()
        invariant
            i <= chars@.len(),
            chars@.len() <= usize::MAX,
            spec_remove_all(chars@, pattern@) == result@ + spec_remove_all(chars@.skip(i as int), pattern@),
        decreases chars@.len() - i,
    {
        let ghost rest = chars@.skip(i as int);
        if pattern.len() > 0 && holds_at(chars, i, pattern) {
            assert(rest.take(pattern@.len() as int) =~= chars@.subrange(i as int, i + pattern@.len()));
            assert(rest.skip(pattern@.len() as int) =~= chars@.skip(i + pattern@.len()));
            i = i + pattern.len();
        } else {
            if pattern.len() == 0 || chars.len() - i < pattern.len() {
                assert(spec_remove_all(rest, pattern@) == rest);
                proof {
                    let total = spec_remove_all(chars@, pattern@);
                    assert(total == result@ + rest);
                }
                let mut j: usize = i;
                while j < chars.len()
                    invariant
                        i <= j <= chars@.len(),
                        result@ + chars@.skip(j as int) == spec_remove_all(chars@, pattern@),
                    decreases chars@.len() - j,
                {
                    let ghost before = result@;
                    result.push(chars[j]);
                    assert(chars@.skip(j as int) =~= seq![chars@[j as int]] + chars@.skip(j + 1));
                    assert(result@ + chars@.skip(j + 1) =~= before + chars@.skip(j as int));
                    j = j + 1;
                }
                assert(chars@.skip(j as int) =~= Seq::<char>::empty());
                assert(result@ + Seq::<char>::empty() =~= result@);
                return result;
            }
            assert(rest.take(pattern@.len() as int) =~= chars@.subrange(i as int, i + pattern@.len()));
            let ghost before = result@;
            result.push(chars[i]);
            assert(rest.skip(1) =~= chars@.skip(i + 1));
            assert(rest[0] == chars@[i as int]);
            assert(result@ + spec_remove_all(chars@.skip(i + 1), pattern@) =~= before + (seq![rest[0]] + spec_remove_all(rest.skip(1), pattern@)));
            i = i + 1;
        }
    }
    assert(chars@.skip(i as int) =~= Seq::<char>::empty());
    assert(spec_remove_all(Seq::<char>::empty(), pattern@) == Seq::<char>::empty());
    assert(result@ + Seq::<char>::empty() =~= result@);
    result
}

/// Whether two character sequences are the same.
fn same_chars(a: &[char], b: &[char]) -> (result: bool)
    ensures
        result == (a@ == b@),
{
    if a.len() != b.len() {
        return false;
    }
    let r = holds_at(a, 0, b);
    assert(a@.subrange(0, b@.len() as int) =~= a@);
    r
}

impl DBPreferences {
    /// The default preferences, with the log in `log_dir`.
    pub fn default_at_dir(log_dir: &str) -> (result: Self)
        ensures
            result@ == (PreferencesView { log_dir: log_dir@, ..default_preferences() }),
    {
        let mut prefs = Self::default();
        prefs.log_dir = string_from_chars(&str_chars(log_dir));
        prefs
    }

    /// The preferences that the arguments give; see `spec_from_cli_args`.
    pub fn from_cli_args(cli_args: &[String]) -> (result: Self)
        ensures
            result@ == spec_from_cli_args(cli_args@.map_values(|s: String| s@)),
    {
        let ghost args = cli_args@.map_values(|s: String| s@);
        let data_dir = str_chars("--data-dir=");
        let ecc_mode = str_chars("--ecc-mode=");
        let http_port = str_chars("--http-port=");
        let tcp_port = str_chars("--tcp-port=");
        let tmr = str_chars("TMR");
        let mut prefs = DBPreferences::default();
        let mut i: usize = 0;
        assert(args.take(0) =~= Seq::<Seq<char>>::empty());
        while i < cli_args.len()
            invariant
                i <= cli_args@.len(),
                args == cli_args@.map_values(|s: String| s@),
                data_dir@ == data_dir_flag(),
                ecc_mode@ == ecc_mode_flag(),
                http_port@ == http_port_flag(),
                tcp_port@ == tcp_port_flag(),
                tmr@ == "TMR"@,
                prefs@ == spec_from_cli_args(args.take(i as int)),
            decreases cli_args@.len() - i,
        {
            proof {
                assert(args.take(i + 1).drop_last() =~= args.take(i as int));
                assert(args.take(i + 1).last() == cli_args@[i as int]@);
            }
            let arg = str_chars(cli_args[i].as_str());
            let ghost a = arg@;
            if holds_at(&arg, 0, &data_dir) {
                assert(a.subrange(0, data_dir@.len() as int) =~= a.take(data_dir@.len() as int));
                prefs.log_dir = string_from_chars(&remove_all(&arg, &data_dir));
            } else if holds_at(&arg, 0, &ecc_mode) {
                assert(a.subrange(0, ecc_mode@.len() as int) =~= a.take(ecc_mode@.len() as int));
                assert(!(a.len() >= data_dir_flag().len() && a.take(data_dir_flag().len() as int) == data_dir_flag())) by {
                    if a.len() >= data_dir_flag().len() && a.take(data_dir_flag().len() as int) == data_dir_flag() {
                        assert(a.subrange(0, data_dir@.len() as int) =~= a.take(data_dir@.len() as int));
                    }
                }
                let desired_mode = remove_all(&arg, &ecc_mode);
                if same_chars(&desired_mode, &tmr) {
                    prefs.ecc_mode = ECCMode::TMR;
                }
            } else if holds_at(&arg, 0, &http_port) {
                assert(a.subrange(0, http_port@.len() as int) =~= a.take(http_port@.len() as int));
                assert(!(a.len() >= data_dir_flag().len() && a.take(data_dir_flag().len() as int) == data_dir_flag())) by {
                    if a.len() >= data_dir_flag().len() && a.take(data_dir_flag().len() as int) == data_dir_flag() {
                        assert(a.subrange(0, data_dir@.len() as int) =~= a.take(data_dir@.len() as int));
                    }
                }
                assert(!(a.len() >= ecc_mode_flag().len() && a.take(ecc_mode_flag().len() as int) == ecc_mode_flag())) by {
                    if a.len() >= ecc_mode_flag().len() && a.take(ecc_mode_flag().len() as int) == ecc_mode_flag() {
                        assert(a.subrange(0, ecc_mode@.len() as int) =~= a.take(ecc_mode@.len() as int));
                    }
                }
                let text = string_from_chars(&remove_all(&arg, &http_port));
                match parse_u16(text.as_str()) {
                    Some(port) => {
                        prefs.http_port = Some(port);
                    },
                    None => {},
                }
            } else if holds_at(&arg, 0, &tcp_port) {
                assert(a.subrange(0, tcp_port@.len() as int) =~= a.take(tcp_port@.len() as int));
                assert(!(a.len() >= data_dir_flag().len() && a.take(data_dir_flag().len() as int) == data_dir_flag())) by {
                    if a.len() >= data_dir_flag().len() && a.take(data_dir_flag().len() as int) == data_dir_flag() {
                        assert(a.subrange(0, data_dir@.len() as int) =~= a.take(data_dir@.len() as int));
                    }
                }
                assert(!(a.len() >= ecc_mode_flag().len() && a.take(ecc_mode_flag().len() as int) == ecc_mode_flag())) by {
                    if a.len() >= ecc_mode_flag().len() && a.take(ecc_mode_flag().len() as int) == ecc_mode_flag() {
                        assert(a.subrange(0, ecc_mode@.len() as int) =~= a.take(ecc_mode@.len() as int));
                    }
                }
                assert(!(a.len() >= http_port_flag().len() && a.take(http_port_flag().len() as int) == http_port_flag())) by {
                    if a.len() >= http_port_flag().len() && a.take(http_port_flag().len() as int) == http_port_flag() {
                        assert(a.subrange(0, http_port@.len() as int) =~= a.take(http_port@.len() as int));
                    }
                }
                let text = string_from_chars(&remove_all(&arg, &tcp_port));
                match parse_u16(text.as_str()) {
                    Some(port) => {
                        prefs.tcp_port = Some(port);
                    },
                    None => {},
                }
            } else {
                proof {
                    if a.len() >= data_dir_flag().len() && a.take(data_dir_flag().len() as int) == data_dir_flag() {
                        assert(a.subrange(0, data_dir@.len() as int) =~= a.take(data_dir@.len() as int));
                    }
                    if a.len() >= ecc_mode_flag().len() && a.take(ecc_mode_flag().len() as int) == ecc_mode_flag() {
                        assert(a.subrange(0, ecc_mode@.len() as int) =~= a.take(ecc_mode@.len() as int));
                    }
                    if a.len() >= http_port_flag().len() && a.take(http_port_flag().len() as int) == http_port_flag() {
                        assert(a.subrange(0, http_port@.len() as int) =~= a.take(http_port@.len() as int));
                    }
                    if a.len() >= tcp_port_flag().len() && a.take(tcp_port_flag().len() as int) == tcp_port_flag() {
                        assert(a.subrange(0, tcp_port@.len() as int) =~= a.take(tcp_port@.len() as int));
                    }
                }
            }
            i = i + 1;
        }
        assert(args.take(i as int) =~= args);
        prefs
    }
}

impl Default for DBPreferences {
    fn default() -> (result: Self)
        ensures
            result@ == default_preferences(),
    {
        DBPreferences {
            log_dir: string_from_chars(&str_chars("/var/immux_log")),
            ecc_mode: ECCMode::Identity,
            http_port: Some(HTTP_SERVER_DEFAULT_PORT),
            tcp_port: Some(TCP_SERVER_DEFAULT_PORT),
            db_version: LogVersion::new(0, 1, 0),
        }
    }
}

} // verus!
