//! Flag-based relay configuration. The flag names are the contract the
//! operator relies on; every limit is configuration.

use vstd::prelude::*;

use crate::relay::table::str_eq;

verus! {

/// Relay configuration. Durations are whole seconds.
#[derive(Debug, Clone)]
pub struct Config {
    /// The listen address, as given (`host:port`), a socket address.
    pub listen: String,
    pub plain_http: bool,
    pub tls_cert: Option<String>,
    pub tls_key: Option<String>,
    /// Message and idle-mailbox time-to-live, seconds.
    pub ttl: u64,
    /// Sweep period, seconds.
    pub sweep: u64,
    pub max_blob_bytes: usize,
    pub mailbox_max_messages: usize,
    pub mailbox_max_bytes: usize,
    pub max_mailboxes: usize,
    pub rate_create_per_min: u32,
    /// Per-source create-at-id rate.
    pub rate_put_per_min_source: u32,
    pub rate_deposit_per_min_source: u32,
    pub rate_deposit_per_min_mailbox: u32,
    pub rate_ws_per_min_mailbox: u32,
    /// Idle expiry of rate-limiter entries, seconds.
    pub limiter_idle: u64,
    /// Cap on the number of tracked sources.
    pub limiter_max_sources: usize,
}

/// The content of a configuration.
pub ghost struct ConfigView {
    pub listen: Seq<char>,
    pub plain_http: bool,
    pub tls_cert: Option<Seq<char>>,
    pub tls_key: Option<Seq<char>>,
    pub ttl: u64,
    pub sweep: u64,
    pub max_blob_bytes: usize,
    pub mailbox_max_messages: usize,
    pub mailbox_max_bytes: usize,
    pub max_mailboxes: usize,
    pub rate_create_per_min: u32,
    pub rate_put_per_min_source: u32,
    pub rate_deposit_per_min_source: u32,
    pub rate_deposit_per_min_mailbox: u32,
    pub rate_ws_per_min_mailbox: u32,
    pub limiter_idle: u64,
    pub limiter_max_sources: usize,
}

/// The text of an optional string.
pub open spec fn opt_view(o: Option<String>) -> Option<Seq<char>> {
    match o {
        Some(s) => Some(s@),
        None => None,
    }
}

impl View for Config {
    type V = ConfigView;

    open spec fn view(&self) -> ConfigView {
        ConfigView {
            listen: self.listen@,
            plain_http: self.plain_http,
            tls_cert: opt_view(self.tls_cert),
            tls_key: opt_view(self.tls_key),
            ttl: self.ttl,
            sweep: self.sweep,
            max_blob_bytes: self.max_blob_bytes,
            mailbox_max_messages: self.mailbox_max_messages,
            mailbox_max_bytes: self.mailbox_max_bytes,
            max_mailboxes: self.max_mailboxes,
            rate_create_per_min: self.rate_create_per_min,
            rate_put_per_min_source: self.rate_put_per_min_source,
            rate_deposit_per_min_source: self.rate_deposit_per_min_source,
            rate_deposit_per_min_mailbox: self.rate_deposit_per_min_mailbox,
            rate_ws_per_min_mailbox: self.rate_ws_per_min_mailbox,
            limiter_idle: self.limiter_idle,
            limiter_max_sources: self.limiter_max_sources,
        }
    }
}

/// The defaults.
pub open spec fn default_view() -> ConfigView {
    ConfigView {
        listen: "127.0.0.1:8443"@,
        plain_http: false,
        tls_cert: None,
        tls_key: None,
        ttl: 1_209_600,
        sweep: 3600,
        max_blob_bytes: 16384,
        mailbox_max_messages: 1000,
        mailbox_max_bytes: 4_194_304,
        max_mailboxes: 100_000,
        rate_create_per_min: 10,
        rate_put_per_min_source: 30,
        rate_deposit_per_min_source: 60,
        rate_deposit_per_min_mailbox: 120,
        rate_ws_per_min_mailbox: 6,
        limiter_idle: 600,
        limiter_max_sources: 65_536,
    }
}

impl Default for Config {
    fn default() -> (c: Config)
        ensures
            c@ == default_view(),
    {
        Config {
            listen: "127.0.0.1:8443".to_owned(),
            plain_http: false,
            tls_cert: None,
            tls_key: None,
            ttl: 1_209_600,
            sweep: 3600,
            max_blob_bytes: 16384,
            mailbox_max_messages: 1000,
            mailbox_max_bytes: 4_194_304,
            max_mailboxes: 100_000,
            rate_create_per_min: 10,
            rate_put_per_min_source: 30,
            rate_deposit_per_min_source: 60,
            rate_deposit_per_min_mailbox: 120,
            rate_ws_per_min_mailbox: 6,
            limiter_idle: 600,
            limiter_max_sources: 65_536,
        }
    }
}

/// The value of a decimal digit.
pub open spec fn digit_value(c: char) -> nat {
    (c as int - '0' as int) as nat
}

/// Every character is a decimal digit, and there is at least one.
pub open spec fn all_digits(s: Seq<char>) -> bool {
    s.len() > 0 && forall|i: int| 0 <= i < s.len() ==> '0' <= #[trigger] s[i] <= '9'
}

/// The value of a string of decimal digits.
pub open spec fn digits_value(s: Seq<char>) -> nat
    decreases s.len(),
{
    if s.len() == 0 {
        0
    } else {
        digits_value(s.drop_last()) * 10 + digit_value(s.last())
    }
}

/// The `u64` a decimal numeral (an optional `+`, then digits) denotes, if
/// it fits.
pub open spec fn spec_parse_u64(s: Seq<char>) -> Option<u64> {
    let t = if s.len() > 0 && s[0] == '+' {
        s.skip(1)
    } else {
        s
    };
    if all_digits(t) && digits_value(t) <= u64::MAX {
        Some(digits_value(t) as u64)
    } else {
        None
    }
}

/// `str::parse::<u64>`: the numeral's value when the text is an optional
/// `+` followed by decimal digits whose value fits a `u64`, and otherwise
/// an error carrying the parse error's message (whose wording is not
/// stated here).
#[verifier::external_body]
fn parse_u64(s: &str) -> (r: core::result::Result<u64, String>)
    ensures
        match spec_parse_u64(s@) {
            Some(n) => r == core::result::Result::<u64, String>::Ok(n),
            None => r is Err,
        },
{
    match s.parse::<u64>() {
        Ok(n) => Ok(n),
        Err(e) => Err(e.to_string()),
    }
}

/// Why parsing the flags failed.
pub ghost enum ConfigFault {
    /// A flag that takes a value came last.
    MissingValue(Seq<char>),
    /// A numeric flag's value is not a `u64` numeral.
    BadNumber(Seq<char>),
    /// A flag this relay does not know.
    UnknownFlag(Seq<char>),
    /// The `--listen` value is not a socket address; the reason given.
    BadListen(Seq<char>),
    /// Neither TLS material nor `--plain-http`.
    TlsRequired,
}

/// The message a fault is reported with: its exact text, or for a bad
/// number the prefix its text starts with.
pub open spec fn fault_message(f: ConfigFault) -> Seq<char> {
    match f {
        ConfigFault::MissingValue(flag) => "missing value for "@ + flag,
        ConfigFault::BadNumber(flag) => flag + ": "@,
        ConfigFault::UnknownFlag(flag) => "unknown flag: "@ + flag,
        ConfigFault::BadListen(reason) => "--listen: "@ + reason,
        ConfigFault::TlsRequired => "TLS is required: pass --tls-cert and --tls-key, or --plain-http"@,
    }
}

/// Whether `msg` reports fault `f`.
pub open spec fn reports(msg: Seq<char>, f: ConfigFault) -> bool {
    match f {
        ConfigFault::BadNumber(_) => fault_message(f).is_prefix_of(msg),
        _ => msg == fault_message(f),
    }
}

/// Whether a flag takes a value.
pub open spec fn takes_value(flag: Seq<char>) -> bool {
    flag == "--listen"@ || flag == "--tls-cert"@ || flag == "--tls-key"@ || is_numeric_flag(flag)
}

/// Whether a flag takes a numeric value.
pub open spec fn is_numeric_flag(flag: Seq<char>) -> bool {
    flag == "--ttl-secs"@ || flag == "--sweep-secs"@ || flag == "--max-blob-bytes"@ || flag
        == "--mailbox-max-messages"@ || flag == "--mailbox-max-bytes"@ || flag == "--max-mailboxes"@
        || flag == "--rate-create-per-min"@ || flag == "--rate-put-per-min-source"@ || flag
        == "--rate-deposit-per-min-source"@ || flag == "--rate-deposit-per-min-mailbox"@ || flag
        == "--rate-ws-per-min-mailbox"@
}

/// A numeric flag applied to `cfg`, its value cast to the field's width.
pub open spec fn apply_number(flag: Seq<char>, n: u64, cfg: ConfigView) -> ConfigView {
    if flag == "--ttl-secs"@ {
        ConfigView { ttl: n, ..cfg }
    } else if flag == "--sweep-secs"@ {
        ConfigView { sweep: n, ..cfg }
    } else if flag == "--max-blob-bytes"@ {
        ConfigView { max_blob_bytes: n as usize, ..cfg }
    } else if flag == "--mailbox-max-messages"@ {
        ConfigView { mailbox_max_messages: n as usize, ..cfg }
    } else if flag == "--mailbox-max-bytes"@ {
        ConfigView { mailbox_max_bytes: n as usize, ..cfg }
    } else if flag == "--max-mailboxes"@ {
        ConfigView { max_mailboxes: n as usize, ..cfg }
    } else if flag == "--rate-create-per-min"@ {
        ConfigView { rate_create_per_min: n as u32, ..cfg }
    } else if flag == "--rate-put-per-min-source"@ {
        ConfigView { rate_put_per_min_source: n as u32, ..cfg }
    } else if flag == "--rate-deposit-per-min-source"@ {
        ConfigView { rate_deposit_per_min_source: n as u32, ..cfg }
    } else if flag == "--rate-deposit-per-min-mailbox"@ {
        ConfigView { rate_deposit_per_min_mailbox: n as u32, ..cfg }
    } else {
        ConfigView { rate_ws_per_min_mailbox: n as u32, ..cfg }
    }
}

/// A flag with its value applied to `cfg`.
pub open spec fn apply_value(flag: Seq<char>, v: Seq<char>, cfg: ConfigView) -> core::result::Result<
    ConfigView,
    ConfigFault,
> {
    if flag == "--listen"@ {
        Ok(ConfigView { listen: v, ..cfg })
    } else if flag == "--tls-cert"@ {
        Ok(ConfigView { tls_cert: Some(v), ..cfg })
    } else if flag == "--tls-key"@ {
        Ok(ConfigView { tls_key: Some(v), ..cfg })
    } else {
        match spec_parse_u64(v) {
            Some(n) => Ok(apply_number(flag, n, cfg)),
            None => Err(ConfigFault::BadNumber(flag)),
        }
    }
}

/// The final check: TLS material or plain HTTP.
pub open spec fn tls_check(cfg: ConfigView) -> core::result::Result<ConfigView, ConfigFault> {
    if !cfg.plain_http && (cfg.tls_cert is None || cfg.tls_key is None) {
        Err(ConfigFault::TlsRequired)
    } else {
        Ok(cfg)
    }
}

/// Why argument `i` is not a socket address, if it is not (`errs` holds
/// one entry per argument; a missing entry means it is one).
pub open spec fn addr_error(errs: Seq<Option<Seq<char>>>, i: int) -> Option<Seq<char>> {
    if 0 <= i < errs.len() {
        errs[i]
    } else {
        None
    }
}

/// What parsing the flags from position `i` on gives, starting from `cfg`;
/// `errs` says which arguments are not socket addresses.
pub open spec fn spec_parse_from(
    args: Seq<Seq<char>>,
    errs: Seq<Option<Seq<char>>>,
    i: int,
    cfg: ConfigView,
) -> core::result::Result<
    ConfigView,
    ConfigFault,
>
    decreases args.len() - i,
{
    if i >= args.len() || i < 0 {
        tls_check(cfg)
    } else {
        let flag = args[i];
        if flag == "--plain-http"@ {
            spec_parse_from(args, errs, i + 1, ConfigView { plain_http: true, ..cfg })
        } else if takes_value(flag) {
            if i + 1 >= args.len() {
                Err(ConfigFault::MissingValue(flag))
            } else if flag == "--listen"@ && addr_error(errs, i + 1) is Some {
                Err(ConfigFault::BadListen(addr_error(errs, i + 1)->Some_0))
            } else {
                match apply_value(flag, args[i + 1], cfg) {
                    Err(f) => Err(f),
                    Ok(c2) => spec_parse_from(args, errs, i + 2, c2),
                }
            }
        } else {
            Err(ConfigFault::UnknownFlag(flag))
        }
    }
}

/// The texts of the arguments.
pub open spec fn arg_views(args: Seq<String>) -> Seq<Seq<char>> {
    args.map_values(|s: String| s@)
}

/// The reasons, as text.
pub open spec fn err_views(errs: Seq<Option<String>>) -> Seq<Option<Seq<char>>> {
    errs.map_values(|e: Option<String>| opt_view(e))
}

/// What parsing the command-line flags gives.
pub open spec fn spec_parse_config(args: Seq<String>, addr_errors: Seq<Option<String>>) -> core::result::Result<
    ConfigView,
    ConfigFault,
> {
    spec_parse_from(arg_views(args), err_views(addr_errors), 0, default_view())
}

/// `prefix` followed by `rest`.
fn concat(prefix: &str, rest: &str) -> (s: String)
    ensures
        s@ == prefix@ + rest@,
{
    let mut s = prefix.to_owned();
    vstd::string::StringExecFns::append(&mut s, rest);
    s
}

fn is_numeric_flag_exec(flag: &str) -> (r: bool)
    ensures
        r == is_numeric_flag(flag@),
{
    str_eq(flag, "--ttl-secs") || str_eq(flag, "--sweep-secs") || str_eq(flag, "--max-blob-bytes")
        || str_eq(flag, "--mailbox-max-messages") || str_eq(flag, "--mailbox-max-bytes") || str_eq(
        flag,
        "--max-mailboxes",
    ) || str_eq(flag, "--rate-create-per-min") || str_eq(flag, "--rate-put-per-min-source")
        || str_eq(flag, "--rate-deposit-per-min-source") || str_eq(
        flag,
        "--rate-deposit-per-min-mailbox",
    ) || str_eq(flag, "--rate-ws-per-min-mailbox")
}

fn set_number(cfg: &mut Config, flag: &str, n: u64)
    requires
        is_numeric_flag(flag@),
    ensures
        final(cfg)@ == apply_number(flag@, n, old(cfg)@),
{
    if str_eq(flag, "--ttl-secs") {
        cfg.ttl = n;
    } else if str_eq(flag, "--sweep-secs") {
        cfg.sweep = n;
    } else if str_eq(flag, "--max-blob-bytes") {
        cfg.max_blob_bytes = n as usize;
    } else if str_eq(flag, "--mailbox-max-messages") {
        cfg.mailbox_max_messages = n as usize;
    } else if str_eq(flag, "--mailbox-max-bytes") {
        cfg.mailbox_max_bytes = n as usize;
    } else if str_eq(flag, "--max-mailboxes") {
        cfg.max_mailboxes = n as usize;
    } else if str_eq(flag, "--rate-create-per-min") {
        cfg.rate_create_per_min = n as u32;
    } else if str_eq(flag, "--rate-put-per-min-source") {
        cfg.rate_put_per_min_source = n as u32;
    } else if str_eq(flag, "--rate-deposit-per-min-source") {
        cfg.rate_deposit_per_min_source = n as u32;
    } else if str_eq(flag, "--rate-deposit-per-min-mailbox") {
        cfg.rate_deposit_per_min_mailbox = n as u32;
    } else {
        cfg.rate_ws_per_min_mailbox = n as u32;
    }
}

impl Config {
    /// Parses command-line flags (without the program name). The error is
    /// a human-readable message for the startup path. `addr_errors` holds,
    /// for each argument, why its text is not a socket address (`None`
    /// when it is one, or when no entry is given): a `--listen` value that
    /// is not one is refused at that flag with `--listen: <reason>`.
    pub fn parse(args: Vec<String>, addr_errors: Vec<Option<String>>) -> (r: core::result::Result<
        Config,
        String,
    >)
        ensures
            match spec_parse_config(args@, addr_errors@) {
                Ok(v) => r matches Ok(c) && c@ == v,
                Err(f) => r matches Err(m) && reports(m@, f),
            },
    {
        let mut cfg = Config::default();
        let mut i: usize = 0;
        let ghost a = arg_views(args@);
        let ghost ev = err_views(addr_errors@);
        assert(spec_parse_config(args@, addr_errors@) == spec_parse_from(a, ev, 0, cfg@));
        while i < args.len()
            invariant
                i <= args@.len(),
                a == arg_views(args@),
                a.len() == args@.len(),
                ev == err_views(addr_errors@),
                spec_parse_config(args@, addr_errors@) == spec_parse_from(a, ev, i as int, cfg@),
            decreases args@.len() - i,
        {
            let flag = args[i].as_str();
            assert(flag@ == a[i as int]);
            if str_eq(flag, "--plain-http") {
                cfg.plain_http = true;
                i = i + 1;
            } else if str_eq(flag, "--listen") || str_eq(flag, "--tls-cert") || str_eq(
                flag,
                "--tls-key",
            ) || is_numeric_flag_exec(flag) {
                if i + 1 >= args.len() {
                    return Err(concat("missing value for ", flag));
                }
                let value = args[i + 1].as_str();
                assert(value@ == a[i + 1]);
                if str_eq(flag, "--listen") {
                    if i + 1 < addr_errors.len() {
                        match &addr_errors[i + 1] {
                            Some(reason) => {
                                return Err(concat("--listen: ", reason.as_str()));
                            },
                            None => {},
                        }
                    }
                    cfg.listen = value.to_owned();
                } else if str_eq(flag, "--tls-cert") {
                    cfg.tls_cert = Some(value.to_owned());
                } else if str_eq(flag, "--tls-key") {
                    cfg.tls_key = Some(value.to_owned());
                } else {
                    match parse_u64(value) {
                        Ok(n) => set_number(&mut cfg, flag, n),
                        Err(e) => {
                            let mut m = concat(flag, ": ");
                            vstd::string::StringExecFns::append(&mut m, e.as_str());
                            return Err(m);
                        },
                    }
                }
                i = i + 2;
            } else {
                return Err(concat("unknown flag: ", flag));
            }
        }
        if !cfg.plain_http && (cfg.tls_cert.is_none() || cfg.tls_key.is_none()) {
            return Err(
                "TLS is required: pass --tls-cert and --tls-key, or --plain-http".to_owned(),
            );
        }
        Ok(cfg)
    }
}

/// The flag names are distinct from one another.
proof fn lemma_flag_names_distinct()
    ensures
        "--ttl-secs"@ != "--plain-http"@,
        "--ttl-secs"@ != "--listen"@,
        "--ttl-secs"@ != "--tls-cert"@,
        "--ttl-secs"@ != "--tls-key"@,
        "--sweep-secs"@ != "--ttl-secs"@,
        "--sweep-secs"@ != "--plain-http"@,
        "--sweep-secs"@ != "--listen"@,
        "--sweep-secs"@ != "--tls-cert"@,
        "--sweep-secs"@ != "--tls-key"@,
        "--max-blob-bytes"@ != "--ttl-secs"@,
        "--max-blob-bytes"@ != "--sweep-secs"@,
        "--max-blob-bytes"@ != "--plain-http"@,
        "--max-blob-bytes"@ != "--listen"@,
        "--max-blob-bytes"@ != "--tls-cert"@,
        "--max-blob-bytes"@ != "--tls-key"@,
        "--mailbox-max-messages"@ != "--ttl-secs"@,
        "--mailbox-max-messages"@ != "--sweep-secs"@,
        "--mailbox-max-messages"@ != "--max-blob-bytes"@,
        "--mailbox-max-messages"@ != "--plain-http"@,
        "--mailbox-max-messages"@ != "--listen"@,
        "--mailbox-max-messages"@ != "--tls-cert"@,
        "--mailbox-max-messages"@ != "--tls-key"@,
        "--mailbox-max-bytes"@ != "--ttl-secs"@,
        "--mailbox-max-bytes"@ != "--sweep-secs"@,
        "--mailbox-max-bytes"@ != "--max-blob-bytes"@,
        "--mailbox-max-bytes"@ != "--mailbox-max-messages"@,
        "--mailbox-max-bytes"@ != "--plain-http"@,
        "--mailbox-max-bytes"@ != "--listen"@,
        "--mailbox-max-bytes"@ != "--tls-cert"@,
        "--mailbox-max-bytes"@ != "--tls-key"@,
        "--max-mailboxes"@ != "--ttl-secs"@,
        "--max-mailboxes"@ != "--sweep-secs"@,
        "--max-mailboxes"@ != "--max-blob-bytes"@,
        "--max-mailboxes"@ != "--mailbox-max-messages"@,
        "--max-mailboxes"@ != "--mailbox-max-bytes"@,
        "--max-mailboxes"@ != "--plain-http"@,
        "--max-mailboxes"@ != "--listen"@,
        "--max-mailboxes"@ != "--tls-cert"@,
        "--max-mailboxes"@ != "--tls-key"@,
        "--rate-create-per-min"@ != "--ttl-secs"@,
        "--rate-create-per-min"@ != "--sweep-secs"@,
        "--rate-create-per-min"@ != "--max-blob-bytes"@,
        "--rate-create-per-min"@ != "--mailbox-max-messages"@,
        "--rate-create-per-min"@ != "--mailbox-max-bytes"@,
        "--rate-create-per-min"@ != "--max-mailboxes"@,
        "--rate-create-per-min"@ != "--plain-http"@,
        "--rate-create-per-min"@ != "--listen"@,
        "--rate-create-per-min"@ != "--tls-cert"@,
        "--rate-create-per-min"@ != "--tls-key"@,
        "--rate-put-per-min-source"@ != "--ttl-secs"@,
        "--rate-put-per-min-source"@ != "--sweep-secs"@,
        "--rate-put-per-min-source"@ != "--max-blob-bytes"@,
        "--rate-put-per-min-source"@ != "--mailbox-max-messages"@,
        "--rate-put-per-min-source"@ != "--mailbox-max-bytes"@,
        "--rate-put-per-min-source"@ != "--max-mailboxes"@,
        "--rate-put-per-min-source"@ != "--rate-create-per-min"@,
        "--rate-put-per-min-source"@ != "--plain-http"@,
        "--rate-put-per-min-source"@ != "--listen"@,
        "--rate-put-per-min-source"@ != "--tls-cert"@,
        "--rate-put-per-min-source"@ != "--tls-key"@,
        "--rate-deposit-per-min-source"@ != "--ttl-secs"@,
        "--rate-deposit-per-min-source"@ != "--sweep-secs"@,
        "--rate-deposit-per-min-source"@ != "--max-blob-bytes"@,
        "--rate-deposit-per-min-source"@ != "--mailbox-max-messages"@,
        "--rate-deposit-per-min-source"@ != "--mailbox-max-bytes"@,
        "--rate-deposit-per-min-source"@ != "--max-mailboxes"@,
        "--rate-deposit-per-min-source"@ != "--rate-create-per-min"@,
        "--rate-deposit-per-min-source"@ != "--rate-put-per-min-source"@,
        "--rate-deposit-per-min-source"@ != "--plain-http"@,
        "--rate-deposit-per-min-source"@ != "--listen"@,
        "--rate-deposit-per-min-source"@ != "--tls-cert"@,
        "--rate-deposit-per-min-source"@ != "--tls-key"@,
        "--rate-deposit-per-min-mailbox"@ != "--ttl-secs"@,
        "--rate-deposit-per-min-mailbox"@ != "--sweep-secs"@,
        "--rate-deposit-per-min-mailbox"@ != "--max-blob-bytes"@,
        "--rate-deposit-per-min-mailbox"@ != "--mailbox-max-messages"@,
        "--rate-deposit-per-min-mailbox"@ != "--mailbox-max-bytes"@,
        "--rate-deposit-per-min-mailbox"@ != "--max-mailboxes"@,
        "--rate-deposit-per-min-mailbox"@ != "--rate-create-per-min"@,
        "--rate-deposit-per-min-mailbox"@ != "--rate-put-per-min-source"@,
        "--rate-deposit-per-min-mailbox"@ != "--rate-deposit-per-min-source"@,
        "--rate-deposit-per-min-mailbox"@ != "--plain-http"@,
        "--rate-deposit-per-min-mailbox"@ != "--listen"@,
        "--rate-deposit-per-min-mailbox"@ != "--tls-cert"@,
        "--rate-deposit-per-min-mailbox"@ != "--tls-key"@,
        "--rate-ws-per-min-mailbox"@ != "--ttl-secs"@,
        "--rate-ws-per-min-mailbox"@ != "--sweep-secs"@,
        "--rate-ws-per-min-mailbox"@ != "--max-blob-bytes"@,
        "--rate-ws-per-min-mailbox"@ != "--mailbox-max-messages"@,
        "--rate-ws-per-min-mailbox"@ != "--mailbox-max-bytes"@,
        "--rate-ws-per-min-mailbox"@ != "--max-mailboxes"@,
        "--rate-ws-per-min-mailbox"@ != "--rate-create-per-min"@,
        "--rate-ws-per-min-mailbox"@ != "--rate-put-per-min-source"@,
        "--rate-ws-per-min-mailbox"@ != "--rate-deposit-per-min-source"@,
        "--rate-ws-per-min-mailbox"@ != "--rate-deposit-per-min-mailbox"@,
        "--rate-ws-per-min-mailbox"@ != "--plain-http"@,
        "--rate-ws-per-min-mailbox"@ != "--listen"@,
        "--rate-ws-per-min-mailbox"@ != "--tls-cert"@,
        "--rate-ws-per-min-mailbox"@ != "--tls-key"@,
{
    reveal_strlit("--ttl-secs");
    reveal_strlit("--sweep-secs");
    reveal_strlit("--max-blob-bytes");
    reveal_strlit("--mailbox-max-messages");
    reveal_strlit("--mailbox-max-bytes");
    reveal_strlit("--max-mailboxes");
    reveal_strlit("--rate-create-per-min");
    reveal_strlit("--rate-put-per-min-source");
    reveal_strlit("--rate-deposit-per-min-source");
    reveal_strlit("--rate-deposit-per-min-mailbox");
    reveal_strlit("--rate-ws-per-min-mailbox");
    reveal_strlit("--plain-http");
    reveal_strlit("--listen");
    reveal_strlit("--tls-cert");
    reveal_strlit("--tls-key");
    assert("--ttl-secs"@.len() != "--plain-http"@.len());
    assert("--ttl-secs"@.len() != "--listen"@.len());
    assert("--ttl-secs"@[3] != "--tls-cert"@[3]);
    assert("--ttl-secs"@.len() != "--tls-key"@.len());
    assert("--sweep-secs"@.len() != "--ttl-secs"@.len());
    assert("--sweep-secs"@[2] != "--plain-http"@[2]);
    assert("--sweep-secs"@.len() != "--listen"@.len());
    assert("--sweep-secs"@.len() != "--tls-cert"@.len());
    assert("--sweep-secs"@.len() != "--tls-key"@.len());
    assert("--max-blob-bytes"@.len() != "--ttl-secs"@.len());
    assert("--max-blob-bytes"@.len() != "--sweep-secs"@.len());
    assert("--max-blob-bytes"@.len() != "--plain-http"@.len());
    assert("--max-blob-bytes"@.len() != "--listen"@.len());
    assert("--max-blob-bytes"@.len() != "--tls-cert"@.len());
    assert("--max-blob-bytes"@.len() != "--tls-key"@.len());
    assert("--mailbox-max-messages"@.len() != "--ttl-secs"@.len());
    assert("--mailbox-max-messages"@.len() != "--sweep-secs"@.len());
    assert("--mailbox-max-messages"@.len() != "--max-blob-bytes"@.len());
    assert("--mailbox-max-messages"@.len() != "--plain-http"@.len());
    assert("--mailbox-max-messages"@.len() != "--listen"@.len());
    assert("--mailbox-max-messages"@.len() != "--tls-cert"@.len());
    assert("--mailbox-max-messages"@.len() != "--tls-key"@.len());
    assert("--mailbox-max-bytes"@.len() != "--ttl-secs"@.len());
    assert("--mailbox-max-bytes"@.len() != "--sweep-secs"@.len());
    assert("--mailbox-max-bytes"@.len() != "--max-blob-bytes"@.len());
    assert("--mailbox-max-bytes"@.len() != "--mailbox-max-messages"@.len());
    assert("--mailbox-max-bytes"@.len() != "--plain-http"@.len());
    assert("--mailbox-max-bytes"@.len() != "--listen"@.len());
    assert("--mailbox-max-bytes"@.len() != "--tls-cert"@.len());
    assert("--mailbox-max-bytes"@.len() != "--tls-key"@.len());
    assert("--max-mailboxes"@.len() != "--ttl-secs"@.len());
    assert("--max-mailboxes"@.len() != "--sweep-secs"@.len());
    assert("--max-mailboxes"@.len() != "--max-blob-bytes"@.len());
    assert("--max-mailboxes"@.len() != "--mailbox-max-messages"@.len());
    assert("--max-mailboxes"@.len() != "--mailbox-max-bytes"@.len());
    assert("--max-mailboxes"@.len() != "--plain-http"@.len());
    assert("--max-mailboxes"@.len() != "--listen"@.len());
    assert("--max-mailboxes"@.len() != "--tls-cert"@.len());
    assert("--max-mailboxes"@.len() != "--tls-key"@.len());
    assert("--rate-create-per-min"@.len() != "--ttl-secs"@.len());
    assert("--rate-create-per-min"@.len() != "--sweep-secs"@.len());
    assert("--rate-create-per-min"@.len() != "--max-blob-bytes"@.len());
    assert("--rate-create-per-min"@.len() != "--mailbox-max-messages"@.len());
    assert("--rate-create-per-min"@.len() != "--mailbox-max-bytes"@.len());
    assert("--rate-create-per-min"@.len() != "--max-mailboxes"@.len());
    assert("--rate-create-per-min"@.len() != "--plain-http"@.len());
    assert("--rate-create-per-min"@.len() != "--listen"@.len());
    assert("--rate-create-per-min"@.len() != "--tls-cert"@.len());
    assert("--rate-create-per-min"@.len() != "--tls-key"@.len());
    assert("--rate-put-per-min-source"@.len() != "--ttl-secs"@.len());
    assert("--rate-put-per-min-source"@.len() != "--sweep-secs"@.len());
    assert("--rate-put-per-min-source"@.len() != "--max-blob-bytes"@.len());
    assert("--rate-put-per-min-source"@.len() != "--mailbox-max-messages"@.len());
    assert("--rate-put-per-min-source"@.len() != "--mailbox-max-bytes"@.len());
    assert("--rate-put-per-min-source"@.len() != "--max-mailboxes"@.len());
    assert("--rate-put-per-min-source"@.len() != "--rate-create-per-min"@.len());
    assert("--rate-put-per-min-source"@.len() != "--plain-http"@.len());
    assert("--rate-put-per-min-source"@.len() != "--listen"@.len());
    assert("--rate-put-per-min-source"@.len() != "--tls-cert"@.len());
    assert("--rate-put-per-min-source"@.len() != "--tls-key"@.len());
    assert("--rate-deposit-per-min-source"@.len() != "--ttl-secs"@.len());
    assert("--rate-deposit-per-min-source"@.len() != "--sweep-secs"@.len());
    assert("--rate-deposit-per-min-source"@.len() != "--max-blob-bytes"@.len());
    assert("--rate-deposit-per-min-source"@.len() != "--mailbox-max-messages"@.len());
    assert("--rate-deposit-per-min-source"@.len() != "--mailbox-max-bytes"@.len());
    assert("--rate-deposit-per-min-source"@.len() != "--max-mailboxes"@.len());
    assert("--rate-deposit-per-min-source"@.len() != "--rate-create-per-min"@.len());
    assert("--rate-deposit-per-min-source"@.len() != "--rate-put-per-min-source"@.len());
    assert("--rate-deposit-per-min-source"@.len() != "--plain-http"@.len());
    assert("--rate-deposit-per-min-source"@.len() != "--listen"@.len());
    assert("--rate-deposit-per-min-source"@.len() != "--tls-cert"@.len());
    assert("--rate-deposit-per-min-source"@.len() != "--tls-key"@.len());
    assert("--rate-deposit-per-min-mailbox"@.len() != "--ttl-secs"@.len());
    assert("--rate-deposit-per-min-mailbox"@.len() != "--sweep-secs"@.len());
    assert("--rate-deposit-per-min-mailbox"@.len() != "--max-blob-bytes"@.len());
    assert("--rate-deposit-per-min-mailbox"@.len() != "--mailbox-max-messages"@.len());
    assert("--rate-deposit-per-min-mailbox"@.len() != "--mailbox-max-bytes"@.len());
    assert("--rate-deposit-per-min-mailbox"@.len() != "--max-mailboxes"@.len());
    assert("--rate-deposit-per-min-mailbox"@.len() != "--rate-create-per-min"@.len());
    assert("--rate-deposit-per-min-mailbox"@.len() != "--rate-put-per-min-source"@.len());
    assert("--rate-deposit-per-min-mailbox"@.len() != "--rate-deposit-per-min-source"@.len());
    assert("--rate-deposit-per-min-mailbox"@.len() != "--plain-http"@.len());
    assert("--rate-deposit-per-min-mailbox"@.len() != "--listen"@.len());
    assert("--rate-deposit-per-min-mailbox"@.len() != "--tls-cert"@.len());
    assert("--rate-deposit-per-min-mailbox"@.len() != "--tls-key"@.len());
    assert("--rate-ws-per-min-mailbox"@.len() != "--ttl-secs"@.len());
    assert("--rate-ws-per-min-mailbox"@.len() != "--sweep-secs"@.len());
    assert("--rate-ws-per-min-mailbox"@.len() != "--max-blob-bytes"@.len());
    assert("--rate-ws-per-min-mailbox"@.len() != "--mailbox-max-messages"@.len());
    assert("--rate-ws-per-min-mailbox"@.len() != "--mailbox-max-bytes"@.len());
    assert("--rate-ws-per-min-mailbox"@.len() != "--max-mailboxes"@.len());
    assert("--rate-ws-per-min-mailbox"@.len() != "--rate-create-per-min"@.len());
    assert("--rate-ws-per-min-mailbox"@[7] != "--rate-put-per-min-source"@[7]);
    assert("--rate-ws-per-min-mailbox"@.len() != "--rate-deposit-per-min-source"@.len());
    assert("--rate-ws-per-min-mailbox"@.len() != "--rate-deposit-per-min-mailbox"@.len());
    assert("--rate-ws-per-min-mailbox"@.len() != "--plain-http"@.len());
    assert("--rate-ws-per-min-mailbox"@.len() != "--listen"@.len());
    assert("--rate-ws-per-min-mailbox"@.len() != "--tls-cert"@.len());
    assert("--rate-ws-per-min-mailbox"@.len() != "--tls-key"@.len());
}

/// Each numeric flag sets exactly its own field to the value (cast to the
/// field's width) and leaves every other field as it was.
pub proof fn law_numeric_flags_set_their_field(n: u64, cfg: ConfigView)
    ensures
        apply_number("--ttl-secs"@, n, cfg) == (ConfigView { ttl: n, ..cfg }),
        apply_number("--sweep-secs"@, n, cfg) == (ConfigView { sweep: n, ..cfg }),
        apply_number("--max-blob-bytes"@, n, cfg) == (ConfigView { max_blob_bytes: n as usize, ..cfg }),
        apply_number("--mailbox-max-messages"@, n, cfg) == (ConfigView {
            mailbox_max_messages: n as usize,
            ..cfg }),
        apply_number("--mailbox-max-bytes"@, n, cfg) == (ConfigView {
            mailbox_max_bytes: n as usize,
            ..cfg }),
        apply_number("--max-mailboxes"@, n, cfg) == (ConfigView { max_mailboxes: n as usize, ..cfg }),
        apply_number("--rate-create-per-min"@, n, cfg) == (ConfigView {
            rate_create_per_min: n as u32,
            ..cfg }),
        apply_number("--rate-put-per-min-source"@, n, cfg) == (ConfigView {
            rate_put_per_min_source: n as u32,
            ..cfg }),
        apply_number("--rate-deposit-per-min-source"@, n, cfg) == (ConfigView {
            rate_deposit_per_min_source: n as u32,
            ..cfg }),
        apply_number("--rate-deposit-per-min-mailbox"@, n, cfg) == (ConfigView {
            rate_deposit_per_min_mailbox: n as u32,
            ..cfg }),
        apply_number("--rate-ws-per-min-mailbox"@, n, cfg) == (ConfigView {
            rate_ws_per_min_mailbox: n as u32,
            ..cfg }),
{
    lemma_flag_names_distinct();
}

/// A numeric flag followed by a numeral applies that number and parsing
/// goes on after the pair.
pub proof fn law_numeric_flag_step(
    args: Seq<Seq<char>>,
    errs: Seq<Option<Seq<char>>>,
    i: int,
    cfg: ConfigView,
)
    requires
        0 <= i,
        i + 1 < args.len(),
        is_numeric_flag(args[i]),
        spec_parse_u64(args[i + 1]) is Some,
    ensures
        spec_parse_from(args, errs, i, cfg) == spec_parse_from(
            args,
            errs,
            i + 2,
            apply_number(args[i], spec_parse_u64(args[i + 1])->Some_0, cfg),
        ),
{
    reveal_strlit("--plain-http");
    reveal_strlit("--listen");
    reveal_strlit("--tls-cert");
    reveal_strlit("--tls-key");
    lemma_flag_names_distinct();
}

proof fn lemma_parsed_has_tls(args: Seq<Seq<char>>, errs: Seq<Option<Seq<char>>>, i: int, cfg: ConfigView)
    ensures
        spec_parse_from(args, errs, i, cfg) matches Ok(c) ==> c.plain_http || (c.tls_cert is Some
            && c.tls_key is Some),
    decreases args.len() - i,
{
    if 0 <= i < args.len() {
        let flag = args[i];
        if flag == "--plain-http"@ {
            lemma_parsed_has_tls(args, errs, i + 1, ConfigView { plain_http: true, ..cfg });
        } else if takes_value(flag) && i + 1 < args.len() {
            if let Ok(c2) = apply_value(flag, args[i + 1], cfg) {
                lemma_parsed_has_tls(args, errs, i + 2, c2);
            }
        }
    }
}

/// A configuration is accepted without `--plain-http` only with both a
/// TLS certificate and a key.
pub proof fn law_parsed_config_has_tls(args: Seq<String>, addr_errors: Seq<Option<String>>)
    ensures
        spec_parse_config(args, addr_errors) matches Ok(c) ==> c.plain_http || (c.tls_cert is Some
            && c.tls_key is Some),
{
    lemma_parsed_has_tls(arg_views(args), err_views(addr_errors), 0, default_view());
}

/// The final check refuses exactly a configuration with neither
/// `--plain-http` nor both TLS files, and passes any other unchanged.
pub proof fn law_tls_check(c: ConfigView)
    ensures
        tls_check(c) is Ok <==> (c.plain_http || (c.tls_cert is Some && c.tls_key is Some)),
        tls_check(c) matches Ok(c2) ==> c2 == c,
        tls_check(c) matches Err(f) ==> f == ConfigFault::TlsRequired,
{
}

} // verus!
