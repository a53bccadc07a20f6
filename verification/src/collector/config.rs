//! The settings of the collector.

use vstd::prelude::*;
use vstd::string::*;

use crate::numbers::{in_range, int_text, parse_unsigned, push_int, unsigned_text};
use crate::text::{lowercase, same, slices, split, split_text, to_lower, trim, trimmed};

verus! {

/// The settings of the collector.
#[derive(Debug, Clone)]
pub struct Config {
    pub ch_host: String,
    pub ch_port: u16,
    pub ch_user: String,
    pub ch_password: String,
    pub ch_database: String,
    pub ch_batch_sz: usize,
    pub rtds_url: String,
    pub rtds_ping_s: u64,
    pub rtds_stale_s: u64,
    pub rtds_backoff_init: u64,
    pub rtds_backoff_max: u64,
    pub ex_stale_s: u64,
    pub ex_ping_s: u64,
    pub ex_backoff_init: u64,
    pub ex_backoff_max: u64,
    /// The symbols that go to the database, each of them once.
    pub target_symbols: Vec<String>,
    /// Where lines that the database does not get are kept.
    pub backup_dir: String,
}

/// What texts hold.
pub open spec fn words(v: Seq<String>) -> Seq<Seq<char>> {
    v.map_values(|s: String| s@)
}

/// The variables of the environment.
pub open spec fn vars(v: Seq<(String, String)>) -> Seq<(Seq<char>, Seq<char>)> {
    v.map_values(|p: (String, String)| (p.0@, p.1@))
}

/// The value of the first variable with the name `key`.
pub open spec fn var(env: Seq<(Seq<char>, Seq<char>)>, key: Seq<char>) -> Option<Seq<char>>
    decreases env.len(),
{
    if env.len() == 0 {
        None
    } else if env[0].0 == key {
        Some(env[0].1)
    } else {
        var(env.drop_first(), key)
    }
}

/// The value of a variable, or `default`.
pub open spec fn str_var(
    env: Seq<(Seq<char>, Seq<char>)>,
    key: Seq<char>,
    default: Seq<char>,
) -> Seq<char> {
    match var(env, key) {
        Some(v) => v,
        None => default,
    }
}

/// The number that a variable holds, if it is one of at most `max`, or
/// `default`.
pub open spec fn num_var(
    env: Seq<(Seq<char>, Seq<char>)>,
    key: Seq<char>,
    default: int,
    max: int,
) -> int {
    match var(env, key) {
        Some(v) => match in_range(unsigned_text(v), 0, max) {
            Some(n) => n,
            None => default,
        },
        None => default,
    }
}

/// A symbol as it is compared: without white space around it, in small letters.
pub open spec fn normal(s: Seq<char>) -> Seq<char> {
    lowercase(trimmed(s))
}

/// The items of `s` without those that came before.
pub open spec fn distinct(s: Seq<Seq<char>>) -> Seq<Seq<char>>
    decreases s.len(),
{
    if s.len() == 0 {
        Seq::empty()
    } else {
        let head = distinct(s.drop_last());
        if head.contains(s.last()) {
            head
        } else {
            head.push(s.last())
        }
    }
}

/// The symbols of a list with commas.
pub open spec fn symbols(list: Seq<char>) -> Seq<Seq<char>> {
    distinct(split_text(list, ',').map_values(|s: Seq<char>| normal(s)))
}

/// The port for HTTP: the usual port of the native protocol stands for the
/// usual port for HTTP, any other port for itself.
pub open spec fn http_port_of(port: u16) -> u16 {
    if port == 9000 {
        8123
    } else {
        port
    }
}

/// The first variable of a name counts. A number counts if it is written in
/// digits and not too large; where it does not, and where no variable has the
/// name, the default stands.
pub proof fn law_first_variable_counts(
    env: Seq<(Seq<char>, Seq<char>)>,
    key: Seq<char>,
    i: int,
    default: Seq<char>,
    number: int,
    max: int,
)
    requires
        0 <= i <= env.len(),
        forall|j: int| 0 <= j < i ==> (#[trigger] env[j]).0 != key,
        i < env.len() ==> env[i].0 == key,
    ensures
        i < env.len() ==> str_var(env, key, default) == env[i].1 && num_var(env, key, number, max)
            == (match unsigned_text(env[i].1) {
            Some(n) => if 0 <= n <= max {
                n
            } else {
                number
            },
            None => number,
        }),
        i == env.len() ==> str_var(env, key, default) == default && num_var(env, key, number, max)
            == number,
{
    lemma_var_skip(env, key, i);
    if i < env.len() {
        assert(env.skip(i)[0] == env[i]);
    }
}

/// The symbols of a list are its parts between the commas, without the white
/// space around them and in small letters: each of them is there, once, and
/// nothing else.
pub proof fn law_every_symbol_is_listed_once(list: Seq<char>, word: Seq<char>)
    ensures
        symbols(list).contains(word) <==> exists|i: int|
            0 <= i < split_text(list, ',').len() && word == lowercase(
                trimmed(#[trigger] split_text(list, ',')[i]),
            ),
        symbols(list).no_duplicates(),
{
    let parts = split_text(list, ',');
    let all = parts.map_values(|s: Seq<char>| normal(s));
    lemma_distinct(all);
    if symbols(list).contains(word) {
        let i = choose|i: int| 0 <= i < all.len() && all[i] == word;
        assert(word == lowercase(trimmed(parts[i])));
    }
    if exists|i: int| 0 <= i < parts.len() && word == lowercase(trimmed(#[trigger] parts[i])) {
        let i = choose|i: int|
            0 <= i < parts.len() && word == lowercase(trimmed(#[trigger] parts[i]));
        assert(all[i] == word);
        assert(all.contains(word));
    }
}

/// A word that came before changes nothing; any other comes behind the others.
pub proof fn law_new_words_come_last(s: Seq<Seq<char>>, word: Seq<char>)
    ensures
        s.contains(word) ==> distinct(s.push(word)) == distinct(s),
        !s.contains(word) ==> distinct(s.push(word)) == distinct(s).push(word),
        s.len() == 0 ==> distinct(s).len() == 0,
{
    assert(s.push(word).drop_last() =~= s);
    lemma_distinct(s);
}

proof fn lemma_distinct(s: Seq<Seq<char>>)
    ensures
        forall|w: Seq<char>| #[trigger] distinct(s).contains(w) <==> s.contains(w),
        distinct(s).no_duplicates(),
    decreases s.len(),
{
    if s.len() > 0 {
        let head = s.drop_last();
        lemma_distinct(head);
        let d = distinct(head);
        assert forall|w: Seq<char>| #[trigger] distinct(s).contains(w) implies s.contains(w) by {
            if w == s.last() {
                assert(s[s.len() - 1] == w);
            } else {
                let k = choose|k: int| 0 <= k < distinct(s).len() && distinct(s)[k] == w;
                assert(d[k] == w);
                assert(d.contains(w));
                assert(head.contains(w));
                let i = choose|i: int| 0 <= i < head.len() && head[i] == w;
                assert(s[i] == w);
            }
        }
        assert forall|w: Seq<char>| s.contains(w) implies #[trigger] distinct(s).contains(w) by {
            let i = choose|i: int| 0 <= i < s.len() && s[i] == w;
            if i < head.len() {
                assert(head[i] == w);
                assert(d.contains(w));
                let k = choose|k: int| 0 <= k < d.len() && d[k] == w;
                assert(distinct(s)[k] == w);
            } else if !d.contains(w) {
                assert(distinct(s)[d.len() as int] == w);
            }
        }
    }
}

/// The usual port of the native protocol, 9000, goes with that for HTTP, 8123;
/// any other port is its own.
pub proof fn law_only_the_usual_port_is_replaced(port: u16)
    ensures
        port != 9000 ==> http_port_of(port) == port,
        port == 9000 ==> http_port_of(port) == 8123,
{
}

/// The port for HTTP that goes with the port of the database.
pub fn http_port(port: u16) -> (r: u16)
    ensures
        r == http_port_of(port),
{
    if port == 9000 {
        8123
    } else {
        port
    }
}

proof fn lemma_var_skip(env: Seq<(Seq<char>, Seq<char>)>, key: Seq<char>, n: int)
    requires
        0 <= n <= env.len(),
        forall|i: int| 0 <= i < n ==> env[i].0 != key,
    ensures
        var(env, key) == var(env.skip(n), key),
    decreases n,
{
    if n == 0 {
        assert(env.skip(0) =~= env);
    } else {
        lemma_var_skip(env.drop_first(), key, n - 1);
        assert(env.drop_first().skip(n - 1) =~= env.skip(n));
    }
}

fn find<'a>(env: &'a Vec<(String, String)>, key: &str) -> (r: Option<&'a String>)
    ensures
        (match r {
            Some(v) => Some(v@),
            None => None,
        }) == var(vars(env@), key@),
{
    let ghost all = vars(env@);
    let mut i: usize = 0;
    while i < env.len()
        invariant
            all == vars(env@),
            i <= env@.len(),
            forall|k: int| 0 <= k < i ==> all[k].0 != key@,
        decreases env@.len() - i,
    {
        proof {
            lemma_var_skip(all, key@, i as int);
        }
        if same(env[i].0.as_str(), key) {
            return Some(&env[i].1);
        }
        i = i + 1;
    }
    proof {
        lemma_var_skip(all, key@, i as int);
    }
    None
}

/// A variable, or `default` where there is none.
pub fn env_str(env: &Vec<(String, String)>, key: &str, default: &str) -> (r: String)
    ensures
        r@ == str_var(vars(env@), key@, default@),
{
    match find(env, key) {
        Some(v) => v.clone(),
        None => default.to_owned(),
    }
}

/// A variable that holds a 64-bit number, or `default` where there is none.
pub fn env_u64(env: &Vec<(String, String)>, key: &str, default: u64) -> (r: u64)
    ensures
        r == num_var(vars(env@), key@, default as int, u64::MAX as int),
{
    match find(env, key) {
        Some(v) => match parse_unsigned(v.as_str(), u64::MAX) {
            Some(n) => n,
            None => default,
        },
        None => default,
    }
}

/// A variable that holds a 16-bit number, or `default` where there is none.
pub fn env_u16(env: &Vec<(String, String)>, key: &str, default: u16) -> (r: u16)
    ensures
        r == num_var(vars(env@), key@, default as int, u16::MAX as int),
{
    match find(env, key) {
        Some(v) => match parse_unsigned(v.as_str(), u16::MAX as u64) {
            Some(n) => n as u16,
            None => default,
        },
        None => default,
    }
}

/// A variable that holds a length, or `default` where there is none.
pub fn env_usize(env: &Vec<(String, String)>, key: &str, default: usize) -> (r: usize)
    ensures
        r == num_var(vars(env@), key@, default as int, usize::MAX as int),
{
    match find(env, key) {
        Some(v) => match parse_unsigned(v.as_str(), usize::MAX as u64) {
            Some(n) => n as usize,
            None => default,
        },
        None => default,
    }
}

fn holds(list: &Vec<String>, word: &str) -> (r: bool)
    ensures
        r == words(list@).contains(word@),
{
    let mut i: usize = 0;
    while i < list.len()
        invariant
            i <= list@.len(),
            forall|k: int| 0 <= k < i ==> list@[k]@ != word@,
        decreases list@.len() - i,
    {
        if same(list[i].as_str(), word) {
            assert(words(list@)[i as int] == word@);
            return true;
        }
        i = i + 1;
    }
    assert forall|k: int| 0 <= k < words(list@).len() implies words(list@)[k] != word@ by {
        assert(words(list@)[k] == list@[k]@);
    }
    false
}

/// The symbols of a list with commas: each once, in small letters and without
/// white space around it.
pub fn read_symbols(list: &str) -> (r: Vec<String>)
    ensures
        words(r@) == symbols(list@),
        words(r@).no_duplicates(),
{
    let items: Vec<&str> = split(list, ',');
    let ghost all = split_text(list@, ',').map_values(|s: Seq<char>| normal(s));
    let mut out: Vec<String> = Vec::new();
    assert(all.take(0) =~= Seq::empty());
    assert(words(out@) =~= Seq::empty());
    let mut i: usize = 0;
    while i < items.len()
        invariant
            slices(items@) == split_text(list@, ','),
            all == split_text(list@, ',').map_values(|s: Seq<char>| normal(s)),
            i <= items@.len(),
            words(out@) == distinct(all.take(i as int)),
            words(out@).no_duplicates(),
        decreases items@.len() - i,
    {
        let ghost before = out@;
        assert(slices(items@)[i as int] == items@[i as int]@);
        let word: String = to_lower(trim(items[i]));
        assert(word@ == all[i as int]);
        assert(all.take(i + 1).drop_last() =~= all.take(i as int));
        if !holds(&out, word.as_str()) {
            out.push(word);
            assert(words(out@) =~= words(before).push(word@));
        }
        i = i + 1;
    }
    assert(all.take(all.len() as int) =~= all);
    out
}

impl Config {
    /// No symbol is listed twice.
    pub open spec fn wf(&self) -> bool {
        words(self.target_symbols@).no_duplicates()
    }

    /// Reads the settings from the variables of the environment. A variable
    /// that is missing, or does not hold a number where one is needed, leaves
    /// the setting at its default.
    pub fn from_env(env: &Vec<(String, String)>) -> (r: Config)
        ensures
            r.wf(),
            ({
                let e = vars(env@);
                &&& r.ch_host@ == str_var(e, "CH_HOST"@, "localhost"@)
                &&& r.ch_port == num_var(e, "CH_PORT"@, 9000, u16::MAX as int)
                &&& r.ch_user@ == str_var(e, "CH_USER"@, "default"@)
                &&& r.ch_password@ == str_var(e, "CH_PASSWORD"@, ""@)
                &&& r.ch_database@ == str_var(e, "CH_DATABASE"@, "pm"@)
                &&& r.ch_batch_sz == num_var(e, "CH_BATCH_SIZE"@, 200, usize::MAX as int)
                &&& r.rtds_url@ == str_var(
                    e,
                    "RTDS_URL"@,
                    "wss://ws-live-data.polymarket.com"@,
                )
                &&& r.rtds_ping_s == num_var(e, "RTDS_PING_INTERVAL"@, 5, u64::MAX as int)
                &&& r.rtds_stale_s == num_var(e, "RTDS_STALE_TIMEOUT"@, 30, u64::MAX as int)
                &&& r.rtds_backoff_init == num_var(e, "RTDS_BACKOFF_INIT"@, 1, u64::MAX as int)
                &&& r.rtds_backoff_max == num_var(e, "RTDS_BACKOFF_MAX"@, 60, u64::MAX as int)
                &&& r.ex_stale_s == num_var(e, "EX_STALE_TIMEOUT"@, 20, u64::MAX as int)
                &&& r.ex_ping_s == num_var(e, "EX_PING_INTERVAL"@, 15, u64::MAX as int)
                &&& r.ex_backoff_init == num_var(e, "EX_BACKOFF_INIT"@, 1, u64::MAX as int)
                &&& r.ex_backoff_max == num_var(e, "EX_BACKOFF_MAX"@, 60, u64::MAX as int)
                &&& words(r.target_symbols@) == symbols(
                    str_var(
                        e,
                        "TARGET_SYMBOLS"@,
                        "btc/usd,eth/usd,sol/usd,xrp/usd,doge/usd"@,
                    ),
                )
                &&& r.backup_dir@ == str_var(e, "BACKUP_DIR"@, "./data/raw"@)
            }),
    {
        let list: String = env_str(
            env,
            "TARGET_SYMBOLS",
            "btc/usd,eth/usd,sol/usd,xrp/usd,doge/usd",
        );
        Config {
            ch_host: env_str(env, "CH_HOST", "localhost"),
            ch_port: env_u16(env, "CH_PORT", 9000),
            ch_user: env_str(env, "CH_USER", "default"),
            ch_password: env_str(env, "CH_PASSWORD", ""),
            ch_database: env_str(env, "CH_DATABASE", "pm"),
            ch_batch_sz: env_usize(env, "CH_BATCH_SIZE", 200),
            rtds_url: env_str(env, "RTDS_URL", "wss://ws-live-data.polymarket.com"),
            rtds_ping_s: env_u64(env, "RTDS_PING_INTERVAL", 5),
            rtds_stale_s: env_u64(env, "RTDS_STALE_TIMEOUT", 30),
            rtds_backoff_init: env_u64(env, "RTDS_BACKOFF_INIT", 1),
            rtds_backoff_max: env_u64(env, "RTDS_BACKOFF_MAX", 60),
            ex_stale_s: env_u64(env, "EX_STALE_TIMEOUT", 20),
            ex_ping_s: env_u64(env, "EX_PING_INTERVAL", 15),
            ex_backoff_init: env_u64(env, "EX_BACKOFF_INIT", 1),
            ex_backoff_max: env_u64(env, "EX_BACKOFF_MAX", 60),
            target_symbols: read_symbols(list.as_str()),
            backup_dir: env_str(env, "BACKUP_DIR", "./data/raw"),
        }
    }

    /// The address of the database in its native protocol.
    pub fn ch_url(&self) -> (r: String)
        ensures
            r@ == "tcp://"@ + self.ch_user@ + ":"@ + self.ch_password@ + "@"@ + self.ch_host@
                + ":"@ + int_text(self.ch_port as int) + "/"@ + self.ch_database@,
    {
        let mut url: String = "tcp://".to_owned();
        url.append(self.ch_user.as_str());
        url.append(":");
        url.append(self.ch_password.as_str());
        url.append("@");
        url.append(self.ch_host.as_str());
        url.append(":");
        push_int(&mut url, self.ch_port as i128);
        url.append("/");
        url.append(self.ch_database.as_str());
        url
    }

    /// The address of the database for HTTP.
    pub fn http_url(&self) -> (r: String)
        ensures
            r@ == "http://"@ + self.ch_host@ + ":"@ + int_text(http_port_of(self.ch_port) as int),
    {
        let mut url: String = "http://".to_owned();
        url.append(self.ch_host.as_str());
        url.append(":");
        push_int(&mut url, http_port(self.ch_port) as i128);
        url
    }

    /// Whether the records of `symbol` go to the database, in capitals or small
    /// letters.
    pub fn is_target(&self, symbol: &str) -> (r: bool)
        ensures
            r == words(self.target_symbols@).contains(lowercase(symbol@)),
    {
        let low: String = to_lower(symbol);
        holds(&self.target_symbols, low.as_str())
    }
}

} // verus!
