//! Cluster configuration: an ordered list of key/value options, the keys
//! the core recognises, and their documented defaults.  A further key,
//! `metrics.poll.interval.ms`, is recognised on the wire but drives nothing
//! here.

use vstd::prelude::*;
use crate::strings::{str_eq, parse_u64, is_dec_string, dec_value, digits_of};

verus! {

/// A key/value pair collection of configuration options; the first entry
/// with a given key wins.
pub type ConfigMap = Vec<(String, String)>;

/// Poll cadence applied when `metadata.poll.interval.ms` is missing or does
/// not parse.
pub const DEFAULT_POLL_INTERVAL_MS: u64 = 30000;

/// The value at `key`, taking the first entry whose key matches.
pub open spec fn config_lookup(s: Seq<(String, String)>, key: Seq<char>) -> Option<Seq<char>>
    decreases s.len(),
{
    if s.len() == 0 {
        None
    } else if s[0].0@ == key {
        Some(s[0].1@)
    } else {
        config_lookup(s.drop_first(), key)
    }
}

/// Skipping entries whose keys do not match leaves the lookup unchanged.
proof fn lemma_lookup_skip(s: Seq<(String, String)>, key: Seq<char>, n: int)
    requires
        0 <= n <= s.len(),
        forall|j: int| 0 <= j < n ==> (#[trigger] s[j]).0@ != key,
    ensures
        config_lookup(s, key) == config_lookup(s.skip(n), key),
    decreases n,
{
    if n > 0 {
        assert(s[0].0@ != key);
        assert(config_lookup(s, key) == config_lookup(s.drop_first(), key));
        assert(s.drop_first() =~= s.skip(1));
        assert(forall|j: int|
            0 <= j < n - 1 ==> (#[trigger] s.skip(1)[j]).0@ == s[j + 1].0@);
        lemma_lookup_skip(s.skip(1), key, n - 1);
        assert(s.skip(1).skip(n - 1) =~= s.skip(n));
    } else {
        assert(s.skip(0) =~= s);
    }
}

/// Look `key` up in `config`; the first matching entry wins.
pub fn config_get<'a>(config: &'a ConfigMap, key: &str) -> (r: Option<&'a String>)
    ensures
        match r {
            Some(v) => config_lookup(config@, key@) == Some(v@),
            None => config_lookup(config@, key@) is None,
        },
{
    let n = config.len();
    let mut i: usize = 0;
    while i < n
        invariant
            i <= n,
            n == config@.len(),
            forall|j: int| 0 <= j < i ==> (#[trigger] config@[j]).0@ != key@,
        decreases n - i,
    {
        let entry = &config[i];
        if str_eq(entry.0.as_str(), key) {
            proof {
                lemma_lookup_skip(config@, key@, i as int);
                assert(config@.skip(i as int)[0] == config@[i as int]);
            }
            return Some(&entry.1);
        }
        i = i + 1;
    }
    proof {
        lemma_lookup_skip(config@, key@, n as int);
        assert(config@.skip(n as int) =~= Seq::<(String, String)>::empty());
    }
    None
}

/// The broker discovery seeds: `bootstrap.servers`, defaulting to
/// `localhost:9092`.
pub open spec fn spec_bootstrap_servers(config: Seq<(String, String)>) -> Seq<char> {
    match config_lookup(config, "bootstrap.servers"@) {
        Some(v) => v,
        None => "localhost:9092"@,
    }
}

/// Resolve the broker discovery seeds from the configuration.
pub fn bootstrap_servers(config: &ConfigMap) -> (r: String)
    ensures
        r@ == spec_bootstrap_servers(config@),
{
    match config_get(config, "bootstrap.servers") {
        Some(v) => v.clone(),
        None => {
            let s = "localhost:9092";
            s.to_owned()
        },
    }
}

/// The probe consumer's group id: `seekr.group.id`, defaulting to
/// `seekr.io`.
pub open spec fn spec_group_id(config: Seq<(String, String)>) -> Seq<char> {
    match config_lookup(config, "seekr.group.id"@) {
        Some(v) => v,
        None => "seekr.io"@,
    }
}

/// Resolve the probe consumer's group id from the configuration.
pub fn group_id(config: &ConfigMap) -> (r: String)
    ensures
        r@ == spec_group_id(config@),
{
    match config_get(config, "seekr.group.id") {
        Some(v) => v.clone(),
        None => {
            let s = "seekr.io";
            s.to_owned()
        },
    }
}

/// The poll cadence in milliseconds: `metadata.poll.interval.ms` parsed as
/// a decimal `u64`, with the default applied when the key is missing or the
/// value does not parse.
pub open spec fn spec_poll_interval_ms(config: Seq<(String, String)>) -> u64 {
    match config_lookup(config, "metadata.poll.interval.ms"@) {
        Some(v) => if is_dec_string(v) && dec_value(digits_of(v)) <= u64::MAX {
            dec_value(digits_of(v)) as u64
        } else {
            DEFAULT_POLL_INTERVAL_MS
        },
        None => DEFAULT_POLL_INTERVAL_MS,
    }
}

/// Resolve the poll cadence from the configuration.
pub fn poll_interval_ms(config: &ConfigMap) -> (r: u64)
    ensures
        r == spec_poll_interval_ms(config@),
{
    match config_get(config, "metadata.poll.interval.ms") {
        Some(v) => match parse_u64(v.as_str()) {
            Some(n) => n,
            None => DEFAULT_POLL_INTERVAL_MS,
        },
        None => DEFAULT_POLL_INTERVAL_MS,
    }
}

/// Copy a configuration; the copy holds the same entries in the same order.
pub fn clone_config(config: &ConfigMap) -> (r: ConfigMap)
    ensures
        r@ == config@,
{
    let n = config.len();
    let mut out: ConfigMap = Vec::new();
    let mut i: usize = 0;
    while i < n
        invariant
            i <= n,
            n == config@.len(),
            out@.len() == i,
            forall|j: int| 0 <= j < i ==> out@[j] == config@[j],
        decreases n - i,
    {
        let entry = &config[i];
        out.push((entry.0.clone(), entry.1.clone()));
        i = i + 1;
    }
    proof {
        assert(out@ =~= config@);
    }
    out
}

} // verus!
