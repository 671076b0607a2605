use vstd::prelude::*;

use crate::text::{split, split_at_char, views};

verus! {

/// Separator between the `key=value` items of a host entry.
pub const ITEM_SEPARATOR: char = ',';

/// Separator between a key and its value.
pub const KEY_VALUE_SEPARATOR: char = '=';

/// One host to serve, as given on the command line:
/// `name=...,mac_address=...,broadcast_ip=...`.
#[derive(Debug, Clone, PartialEq, Eq)]
pub struct HostConfig {
    pub name: String,
    pub mac_address: String,
    pub broadcast_ip: String,
}

/// The mathematical form of a [`HostConfig`].
pub struct HostConfigView {
    pub name: Seq<char>,
    pub mac_address: Seq<char>,
    pub broadcast_ip: Seq<char>,
}

impl View for HostConfig {
    type V = HostConfigView;

    open spec fn view(&self) -> HostConfigView {
        HostConfigView {
            name: self.name@,
            mac_address: self.mac_address@,
            broadcast_ip: self.broadcast_ip@,
        }
    }
}

/// The startup configuration of the server: the hosts it knows.
#[derive(Debug, Clone, PartialEq, Eq)]
pub struct Config {
    pub hosts: Vec<HostConfig>,
}

/// Why a host entry was rejected.
#[derive(Debug, Clone, PartialEq, Eq)]
pub enum HostConfigError {
    /// An item does not split into exactly a key and a value at `=`.
    MalformedItem { item: String, parts: usize },
    /// No `name` key.
    MissingName,
    /// No `mac_address` key.
    MissingMacAddress,
    /// No `broadcast_ip` key.
    MissingBroadcastIp,
}

/// The mathematical form of a [`HostConfigError`].
pub enum ConfigFault {
    MalformedItem(Seq<char>, nat),
    MissingName,
    MissingMacAddress,
    MissingBroadcastIp,
}

impl View for HostConfigError {
    type V = ConfigFault;

    open spec fn view(&self) -> ConfigFault {
        match self {
            HostConfigError::MalformedItem { item, parts } => ConfigFault::MalformedItem(
                item@,
                *parts as nat,
            ),
            HostConfigError::MissingName => ConfigFault::MissingName,
            HostConfigError::MissingMacAddress => ConfigFault::MissingMacAddress,
            HostConfigError::MissingBroadcastIp => ConfigFault::MissingBroadcastIp,
        }
    }
}

/// Splits each item into its key and value; fails with the first item that
/// does not have exactly two parts, and the number of parts it has.
pub open spec fn key_values(items: Seq<Seq<char>>) -> Result<
    Seq<(Seq<char>, Seq<char>)>,
    (Seq<char>, nat),
>
    decreases items.len(),
{
    if items.len() == 0 {
        Ok(Seq::empty())
    } else {
        match key_values(items.drop_last()) {
            Err(e) => Err(e),
            Ok(pairs) => {
                let parts = split(items.last(), KEY_VALUE_SEPARATOR);
                if parts.len() == 2 {
                    Ok(pairs.push((parts[0], parts[1])))
                } else {
                    Err((items.last(), parts.len()))
                }
            },
        }
    }
}

/// The value of the last pair with the given key: a later item overrides an
/// earlier one.
pub open spec fn lookup(pairs: Seq<(Seq<char>, Seq<char>)>, key: Seq<char>) -> Option<Seq<char>>
    decreases pairs.len(),
{
    if pairs.len() == 0 {
        None
    } else if pairs.last().0 == key {
        Some(pairs.last().1)
    } else {
        lookup(pairs.drop_last(), key)
    }
}

/// What a host entry parses to. Keys other than the three known ones are
/// ignored; the missing keys are reported in the order name, MAC, broadcast.
pub open spec fn host_config_spec(s: Seq<char>) -> Result<HostConfigView, ConfigFault> {
    match key_values(split(s, ITEM_SEPARATOR)) {
        Err((item, parts)) => Err(ConfigFault::MalformedItem(item, parts)),
        Ok(pairs) => match (
            lookup(pairs, "name"@),
            lookup(pairs, "mac_address"@),
            lookup(pairs, "broadcast_ip"@),
        ) {
            (None, _, _) => Err(ConfigFault::MissingName),
            (Some(_), None, _) => Err(ConfigFault::MissingMacAddress),
            (Some(_), Some(_), None) => Err(ConfigFault::MissingBroadcastIp),
            (Some(name), Some(mac_address), Some(broadcast_ip)) => Ok(
                HostConfigView { name, mac_address, broadcast_ip },
            ),
        },
    }
}

/// A failure on a prefix of the items is the failure on all of them.
proof fn lemma_key_values_prefix_err(items: Seq<Seq<char>>, k: int)
    requires
        0 <= k <= items.len(),
        key_values(items.subrange(0, k)) is Err,
    ensures
        key_values(items) == key_values(items.subrange(0, k)),
    decreases items.len() - k,
{
    if k < items.len() {
        assert(items.subrange(0, k + 1).drop_last() =~= items.subrange(0, k));
        lemma_key_values_prefix_err(items, k + 1);
    } else {
        assert(items.subrange(0, k) =~= items);
    }
}

/// The value of the last key equal to `key`.
fn find_value(keys: &Vec<String>, values: &Vec<String>, key: &str) -> (r: Option<String>)
    requires
        keys.len() == values.len(),
    ensures
        r matches Some(v) ==> lookup(zip(keys@, values@), key@) == Some(v@),
        r is None ==> lookup(zip(keys@, values@), key@) is None,
{
    let wanted = key.to_owned();
    let mut i: usize = keys.len();
    assert(zip(keys@, values@).subrange(0, i as int) =~= zip(keys@, values@));
    while i > 0
        invariant
            i <= keys.len() == values.len(),
            wanted@ == key@,
            lookup(zip(keys@, values@), key@) == lookup(
                zip(keys@, values@).subrange(0, i as int),
                key@,
            ),
        decreases i,
    {
        let ghost pairs = zip(keys@, values@).subrange(0, i as int);
        assert(pairs.drop_last() =~= zip(keys@, values@).subrange(0, i - 1));
        if keys[i - 1] == wanted {
            return Some(values[i - 1].clone());
        }
        i = i - 1;
    }
    None
}

/// Pairs up the views of two vectors of strings of the same length.
pub open spec fn zip(keys: Seq<String>, values: Seq<String>) -> Seq<(Seq<char>, Seq<char>)> {
    Seq::new(keys.len(), |i: int| (keys[i]@, values[i]@))
}

impl HostConfig {
    /// Parses `name=...,mac_address=...,broadcast_ip=...`. Items may come in
    /// any order; unknown keys are ignored and a repeated key keeps its last
    /// value.
    pub fn from_str(s: &str) -> (r: Result<HostConfig, HostConfigError>)
        ensures
            match host_config_spec(s@) {
                Ok(cfg) => r is Ok && r->Ok_0@ == cfg,
                Err(fault) => r is Err && r->Err_0@ == fault,
            },
    {
        let items = split_at_char(s, ITEM_SEPARATOR);
        let ghost its = views(items@);
        let mut keys: Vec<String> = Vec::new();
        let mut values: Vec<String> = Vec::new();
        let mut i: usize = 0;
        assert(its.subrange(0, 0) =~= Seq::<Seq<char>>::empty());
        assert(zip(keys@, values@) =~= Seq::<(Seq<char>, Seq<char>)>::empty());
        while i < items.len()
            invariant
                its == views(items@),
                its == split(s@, ITEM_SEPARATOR),
                i <= items.len(),
                keys.len() == values.len(),
                key_values(its.subrange(0, i as int)) == Ok::<_, (Seq<char>, nat)>(
                    zip(keys@, values@),
                ),
            decreases items.len() - i,
        {
            assert(its.subrange(0, i + 1).drop_last() =~= its.subrange(0, i as int));
            let mut parts = split_at_char(items[i].as_str(), KEY_VALUE_SEPARATOR);
            if parts.len() != 2 {
                proof {
                    lemma_key_values_prefix_err(its, i + 1);
                }
                return Err(
                    HostConfigError::MalformedItem { item: items[i].clone(), parts: parts.len() },
                );
            }
            let ghost pv = views(parts@);
            assert(pv == split(its[i as int], KEY_VALUE_SEPARATOR));
            let value = parts.pop().unwrap();
            let key = parts.pop().unwrap();
            assert(key@ == pv[0] && value@ == pv[1]);
            let ghost old_pairs = zip(keys@, values@);
            keys.push(key);
            values.push(value);
            assert(zip(keys@, values@) =~= old_pairs.push((pv[0], pv[1])));
            assert(its.subrange(0, i + 1).last() == its[i as int]);
            i = i + 1;
        }
        assert(its.subrange(0, items.len() as int) =~= its);
        let name = match find_value(&keys, &values, "name") {
            Some(v) => v,
            None => return Err(HostConfigError::MissingName),
        };
        let mac_address = match find_value(&keys, &values, "mac_address") {
            Some(v) => v,
            None => return Err(HostConfigError::MissingMacAddress),
        };
        let broadcast_ip = match find_value(&keys, &values, "broadcast_ip") {
            Some(v) => v,
            None => return Err(HostConfigError::MissingBroadcastIp),
        };
        Ok(HostConfig { name, mac_address, broadcast_ip })
    }
}

} // verus!
