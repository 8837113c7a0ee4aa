//! The Homematic CCU3 frontend: which parameter sets a mapping reads, and
//! what an answer of the device is worth.

use crate::config::{mapping_entries, mapping_items, Mapping, Value, ValueKind};
use crate::iter_json_value::{unescape_key, unescaped_key};
use crate::text::{parse_usize, parsed_usize, split, split_at};
use vstd::prelude::*;

verus! {

/// Which parameter sets of a channel are to be loaded.
#[derive(Debug, Default, Clone, Copy, PartialEq, Eq, Structural)]
pub struct ParametersetToLoad {
    pub load_values: bool,
    pub load_master: bool,
}

/// What one pointer reads of a device: a channel, and perhaps one of its
/// parameter sets.
#[derive(Debug, PartialEq, Eq)]
pub struct ChannelAccess {
    pub device: String,
    pub channel: usize,
    pub load: ParametersetToLoad,
}

/// What the pointer `/device/channels/number/...` reads: the channel
/// `number` of `device`, and its values or its master parameters where the
/// next segment says so. Any other pointer reads no channel.
pub open spec fn channel_access(pointer: Seq<char>) -> Option<(Seq<char>, usize, ParametersetToLoad)> {
    let parts = split(pointer, '/');
    if parts.len() >= 4 && unescaped_key(parts[2]) == "channels"@ && parsed_usize(unescaped_key(parts[3]))
        is Some {
        Some(
            (
                unescaped_key(parts[1]),
                parsed_usize(unescaped_key(parts[3]))->0,
                ParametersetToLoad {
                    load_values: parts.len() >= 5 && unescaped_key(parts[4]) == "values"@,
                    load_master: parts.len() >= 5 && unescaped_key(parts[4]) == "master"@,
                },
            ),
        )
    } else {
        None
    }
}

/// What a channel access stands for, the device as characters.
pub open spec fn access_view(access: Option<ChannelAccess>) -> Option<
    (Seq<char>, usize, ParametersetToLoad),
> {
    match access {
        Some(a) => Some((a.device@, a.channel, a.load)),
        None => None,
    }
}

/// Whether two texts are the same.
fn same_text(a: &String, b: &str) -> (same: bool)
    ensures
        same == (a@ == b@),
{
    let other = b.to_string();
    *a == other
}

/// Reads from a pointer which channel of which device it reads.
pub fn read_channel_access(pointer: &str) -> (access: Option<ChannelAccess>)
    ensures
        access_view(access) == channel_access(pointer@),
{
    let parts = split_at(pointer, '/');
    let ghost pieces = split(pointer@, '/');
    assert(forall|i: int| 0 <= i < parts@.len() ==> (#[trigger] parts@[i])@ == pieces[i]);
    if parts.len() < 4 {
        return None;
    }
    let device = unescape_key(parts[1].as_str());
    let channels = unescape_key(parts[2].as_str());
    if !same_text(&channels, "channels") {
        return None;
    }
    let number = unescape_key(parts[3].as_str());
    let channel = match parse_usize(number.as_str()) {
        Some(channel) => channel,
        None => {
            return None;
        },
    };
    let mut load = ParametersetToLoad { load_values: false, load_master: false };
    if parts.len() >= 5 {
        let set = unescape_key(parts[4].as_str());
        if same_text(&set, "values") {
            load.load_values = true;
        } else if same_text(&set, "master") {
            load.load_master = true;
        }
        proof {
            reveal_strlit("values");
            reveal_strlit("master");
            assert("values"@.len() == 6 && "master"@.len() == 6);
            assert("values"@[0] == 'v' && "master"@[0] == 'm');
        }
    }
    Some(ChannelAccess { device, channel, load })
}

/// The accesses with one more: a channel that is there takes the new
/// parameter sets in addition, a new channel goes to the end.
pub open spec fn merged(
    accesses: Seq<(Seq<char>, usize, ParametersetToLoad)>,
    access: (Seq<char>, usize, ParametersetToLoad),
) -> Seq<(Seq<char>, usize, ParametersetToLoad)> {
    if has_channel(accesses, access.0, access.1) {
        let at = channel_position(accesses, access.0, access.1);
        accesses.update(
            at,
            (
                access.0,
                access.1,
                ParametersetToLoad {
                    load_values: accesses[at].2.load_values || access.2.load_values,
                    load_master: accesses[at].2.load_master || access.2.load_master,
                },
            ),
        )
    } else {
        accesses.push(access)
    }
}

/// Whether `i` is the first position at which the channel of the device
/// stands.
pub open spec fn is_channel_at(
    accesses: Seq<(Seq<char>, usize, ParametersetToLoad)>,
    device: Seq<char>,
    channel: usize,
    i: int,
) -> bool {
    &&& 0 <= i < accesses.len()
    &&& accesses[i].0 == device
    &&& accesses[i].1 == channel
    &&& forall|j: int|
        0 <= j < i ==> !((#[trigger] accesses[j]).0 == device && accesses[j].1 == channel)
}

/// Whether the channel of the device stands in the list.
pub open spec fn has_channel(
    accesses: Seq<(Seq<char>, usize, ParametersetToLoad)>,
    device: Seq<char>,
    channel: usize,
) -> bool {
    exists|i: int| is_channel_at(accesses, device, channel, i)
}

/// The first position at which the channel of the device stands, where it
/// stands at all.
pub open spec fn channel_position(
    accesses: Seq<(Seq<char>, usize, ParametersetToLoad)>,
    device: Seq<char>,
    channel: usize,
) -> int {
    choose|i: int| is_channel_at(accesses, device, channel, i)
}

/// The channels that the first `n` rules read, each once, with the
/// parameter sets that the rules read of it. Constants read nothing.
pub open spec fn channels_read(rules: Seq<(Seq<char>, Value)>, n: nat) -> Seq<
    (Seq<char>, usize, ParametersetToLoad),
>
    decreases n,
{
    if n == 0 || n > rules.len() {
        Seq::empty()
    } else {
        let before = channels_read(rules, (n - 1) as nat);
        match rules[n - 1].1.kind {
            ValueKind::Pointer { pointer } => match channel_access(pointer@) {
                Some(access) => merged(before, access),
                None => before,
            },
            ValueKind::Constant { .. } => before,
        }
    }
}

/// A list of accesses as what they stand for.
pub open spec fn access_views(accesses: Seq<ChannelAccess>) -> Seq<
    (Seq<char>, usize, ParametersetToLoad),
> {
    accesses.map_values(|a: ChannelAccess| (a.device@, a.channel, a.load))
}

/// The parameter sets that have to be loaded for a mapping: for each
/// channel that a pointer of the mapping reads, whether its values and its
/// master parameters are read.
pub fn parametersets_to_load(mapping: &Mapping) -> (accesses: Vec<ChannelAccess>)
    ensures
        access_views(accesses@) == channels_read(
            mapping_entries(mapping.values),
            mapping_entries(mapping.values).len(),
        ),
{
    let items = mapping_items(&mapping.values);
    let ghost rules = mapping_entries(mapping.values);
    let mut accesses: Vec<ChannelAccess> = Vec::new();
    assert(access_views(accesses@) =~= Seq::empty());
    let mut i: usize = 0;
    while i < items.len()
        invariant
            i <= items@.len(),
            items@.len() == rules.len(),
            forall|k: int| 0 <= k < items@.len() ==> *(#[trigger] items@[k]).1 == rules[k].1,
            access_views(accesses@) == channels_read(rules, i as nat),
        decreases items@.len() - i,
    {
        let rule = items[i].1;
        assert(*rule == rules[i as int].1);
        match &rule.kind {
            ValueKind::Pointer { pointer } => {
                match read_channel_access(pointer.as_str()) {
                    Some(access) => {
                        merge(&mut accesses, access);
                    },
                    None => {},
                }
            },
            ValueKind::Constant { .. } => {},
        }
        i += 1;
    }
    accesses
}

/// Takes one more access into the list.
fn merge(accesses: &mut Vec<ChannelAccess>, access: ChannelAccess)
    ensures
        access_views(final(accesses)@) == merged(
            access_views(old(accesses)@),
            (access.device@, access.channel, access.load),
        ),
{
    let ghost before = access_views(accesses@);
    let mut i: usize = 0;
    while i < accesses.len()
        invariant
            i <= accesses@.len(),
            *accesses == *old(accesses),
            before == access_views(accesses@),
            forall|j: int|
                0 <= j < i ==> !((#[trigger] before[j]).0 == access.device@ && before[j].1
                    == access.channel),
        decreases accesses@.len() - i,
    {
        if accesses[i].channel == access.channel && accesses[i].device == access.device {
            assert(is_channel_at(before, access.device@, access.channel, i as int));
            let ghost at = channel_position(before, access.device@, access.channel);
            proof {
                if at < i {
                    assert(!(before[at].0 == access.device@ && before[at].1 == access.channel));
                } else if i < at {
                    assert(!(before[i as int].0 == access.device@ && before[i as int].1
                        == access.channel));
                }
                assert(at == i);
                assert(before[at].2 == accesses@[i as int].load);
            }
            let ghost wanted = merged(before, (access.device@, access.channel, access.load));

            let load = ParametersetToLoad {
                load_values: accesses[i].load.load_values || access.load.load_values,
                load_master: accesses[i].load.load_master || access.load.load_master,
            };
            accesses.set(i, ChannelAccess { device: access.device, channel: access.channel, load });
            assert(access_views(accesses@).len() == wanted.len());
            assert forall|k: int| 0 <= k < wanted.len() implies access_views(accesses@)[k]
                == wanted[k] by {
                if k != i {
                    assert(accesses@[k] == old(accesses)@[k]);
                }
            }
            assert(access_views(accesses@) =~= wanted);
            return ;
        }
        i += 1;
    }
    assert(!has_channel(before, access.device@, access.channel));
    accesses.push(access);
    assert(access_views(accesses@) =~= before.push((access.device@, access.channel, access.load)));
}

/// Why an answer of the device is no result.
#[derive(Debug, Clone, Copy, PartialEq, Eq, Structural)]
pub enum RpcFailure {
    /// The answer is not of version 1.1.
    Version,
    /// The answer reports an error.
    Error,
    /// The answer holds neither an error nor a result.
    Empty,
}

/// Judges an answer to a JSON-RPC request by its version and by what it
/// holds: the version has to be 1.1, an error counts before a result, and
/// an answer with neither is a failure too.
pub fn check_response(version: &str, has_error: bool, has_result: bool) -> (outcome: Result<
    (),
    RpcFailure,
>)
    ensures
        outcome == if version@ != "1.1"@ {
            Err::<(), RpcFailure>(RpcFailure::Version)
        } else if has_error {
            Err(RpcFailure::Error)
        } else if has_result {
            Ok(())
        } else {
            Err(RpcFailure::Empty)
        },
{
    let version = version.to_string();
    if !same_text(&version, "1.1") {
        Err(RpcFailure::Version)
    } else if has_error {
        Err(RpcFailure::Error)
    } else if has_result {
        Ok(())
    } else {
        Err(RpcFailure::Empty)
    }
}

} // verus!
