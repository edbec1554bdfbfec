//! What a process learns of where it runs.

use vstd::prelude::*;
use crate::text;

verus! {

/// Outbound WebSockets that one cell may hold at once.
pub const DEFAULT_MAX_OUTBOUND_WEBSOCKETS: usize = 32;

/// How long a connection to a peer may take, in milliseconds.
pub const PEER_CONNECT_TIMEOUT_MS: u64 = 3000;

/// How long a lease lasts where nothing else is said, in milliseconds.
pub const DEFAULT_LEASE_TTL_MS: u64 = 10000;

/// `count` bytes of the system's random source (`OsRng::try_fill_bytes` of the
/// `rand` crate), or nothing where the source fails. Which bytes they are is
/// up to the system.
#[verifier::external_body]
fn system_random(count: usize) -> (bytes: Option<Vec<u8>>)
    ensures
        bytes matches Some(bytes) ==> bytes@.len() == count,
{
    let mut bytes = vec![0u8; count];
    rand::RngCore::try_fill_bytes(&mut rand::rngs::OsRng, &mut bytes).ok()?;
    Some(bytes)
}

/// Is this a reply of the system's random source to a request for `count`
/// bytes?
pub closed spec fn source_gave(count: usize, reply: Option<Vec<u8>>) -> bool {
    call_ensures(system_random, (count,), reply)
}

/// Bytes as pairs of lower-case hexadecimal digits.
pub open spec fn bytes_hex(bytes: Seq<u8>) -> Seq<char>
    decreases bytes.len(),
{
    if bytes.len() == 0 {
        Seq::empty()
    } else {
        bytes_hex(bytes.drop_last()) + text::hex(bytes.last() as nat, 2)
    }
}

fn push_bytes_hex(out: &mut String, bytes: &Vec<u8>)
    ensures
        final(out)@ == old(out)@ + bytes_hex(bytes@),
{
    let ghost before = out@;
    let mut at: usize = 0;
    assert(bytes@.take(0) =~= Seq::<u8>::empty());
    assert(out@ =~= before + bytes_hex(bytes@.take(0)));
    while at < bytes.len()
        invariant
            at <= bytes@.len(),
            out@ == before + bytes_hex(bytes@.take(at as int)),
        decreases bytes@.len() - at,
    {
        assert(bytes@.take(at + 1).drop_last() =~= bytes@.take(at as int));
        text::push_hex(out, bytes[at] as u64, 2);
        assert(out@ =~= before + bytes_hex(bytes@.take(at + 1)));
        at = at + 1;
    }
    assert(bytes@.take(at as int) =~= bytes@);
}

/// A node's session id from its random bytes.
pub fn session_id(bytes: &Vec<u8>) -> (id: String)
    ensures
        id@ == "node_"@ + bytes_hex(bytes@),
{
    let mut id = "node_".to_owned();
    push_bytes_hex(&mut id, bytes);
    id
}

/// A process generation from its random bytes.
pub fn process_generation(bytes: &Vec<u8>) -> (generation: String)
    ensures
        generation@ == bytes_hex(bytes@),
{
    let mut generation = String::new();
    push_bytes_hex(&mut generation, bytes);
    assert(generation@ =~= bytes_hex(bytes@));
    generation
}

/// A new session id, from 16 bytes of the system's random source; nothing where
/// the source gave none.
pub fn random_node_session_id() -> (id: Option<String>)
    ensures
        exists|reply: Option<Vec<u8>>| #[trigger]
            source_gave(16, reply) && match reply {
                Some(bytes) => bytes@.len() == 16 && (id matches Some(id) && id@ == "node_"@
                    + bytes_hex(bytes@)),
                None => id is None,
            },
{
    let reply = system_random(16);
    assert(source_gave(16, reply));
    match reply {
        Some(bytes) => Some(session_id(&bytes)),
        None => None,
    }
}

/// A new key for peers: 32 bytes of the system's random source; nothing where
/// the source gave none.
pub fn random_peer_key() -> (key: Option<Vec<u8>>)
    ensures
        source_gave(32, key),
        key matches Some(key) ==> key@.len() == 32,
{
    system_random(32)
}

/// A new process generation, from a new key; nothing where the source gave
/// none.
pub fn random_process_generation() -> (generation: Option<String>)
    ensures
        exists|reply: Option<Vec<u8>>| #[trigger]
            source_gave(32, reply) && match reply {
                Some(bytes) => bytes@.len() == 32 && (generation matches Some(generation)
                    && generation@ == bytes_hex(bytes@)),
                None => generation is None,
            },
{
    match random_peer_key() {
        Some(key) => Some(process_generation(&key)),
        None => None,
    }
}

/// The place of the last `mark` in `text`, or -1 where there is none.
pub open spec fn last_at(text: Seq<char>, mark: char) -> int
    decreases text.len(),
{
    if text.len() == 0 {
        -1
    } else if text.last() == mark {
        text.len() - 1
    } else {
        last_at(text.drop_last(), mark)
    }
}

/// The fields of `/proc/self/stat` behind the process name: what follows the
/// last closing bracket and one character of one byte.
pub open spec fn stat_fields(stat: Seq<char>) -> Option<Seq<Seq<char>>> {
    let close = last_at(stat, ')');
    if close < 0 || close + 1 >= stat.len() || (stat[close + 1] as u32) >= 128 {
        None
    } else {
        Some(text::words_from(stat.skip(close + 2), 0))
    }
}

/// The processor ticks of `/proc/self/stat`, in user and in system mode
/// together; none where a field is missing, is no number, or the two are too
/// many to count.
pub open spec fn cpu_ticks(stat: Seq<char>) -> Option<nat> {
    match stat_fields(stat) {
        None => None,
        Some(fields) => if fields.len() <= 12 {
            None
        } else {
            match (
                text::parsed_dec(fields[11], u64::MAX as nat),
                text::parsed_dec(fields[12], u64::MAX as nat),
            ) {
                (Some(user), Some(system)) => if user + system <= u64::MAX {
                    Some(user + system)
                } else {
                    None
                },
                _ => None,
            }
        },
    }
}

/// The processor ticks of `/proc/self/stat`.
pub fn process_cpu_ticks(stat: &str) -> (ticks: Option<u64>)
    ensures
        ticks is Some <==> cpu_ticks(stat@) is Some,
        ticks matches Some(ticks) ==> cpu_ticks(stat@) == Some(ticks as nat),
{
    let chars = text::chars_of(stat);
    let total: usize = chars.len();
    let mut end: usize = total;
    assert(chars@.take(end as int) =~= stat@);
    while end > 0 && chars[end - 1] != ')'
        invariant
            end <= total,
            total == chars@.len(),
            last_at(stat@, ')') == last_at(chars@.take(end as int), ')'),
        decreases end,
    {
        assert(chars@.take(end as int).last() == chars@[end - 1]);
        assert(chars@.take(end as int).drop_last() =~= chars@.take(end - 1));
        end = end - 1;
    }
    assert(end > 0 ==> chars@.take(end as int).last() == chars@[end - 1]);
    assert(last_at(stat@, ')') == end - 1);
    if end == 0 || end >= total || (chars[end] as u32) >= 128 {
        return None;
    }
    let rest = text::slice_text(&chars, end + 1, total);
    assert(rest@ =~= stat@.skip(end + 1));
    let fields = text::words(rest.as_str());
    let ghost views = text::views(fields@);
    if fields.len() <= 12 {
        return None;
    }
    assert(views[11] == fields@[11]@ && views[12] == fields@[12]@);
    let user = match text::parse_dec(fields[11].as_str(), u64::MAX) {
        Some(user) => user,
        None => return None,
    };
    let system = match text::parse_dec(fields[12].as_str(), u64::MAX) {
        Some(system) => system,
        None => return None,
    };
    user.checked_add(system)
}

/// Ticks per second, from what the system says; 100 where it says nothing of
/// use.
pub fn clock_ticks_per_second(said: i64) -> (ticks: u64)
    ensures
        ticks == if said > 0 {
            said as int
        } else {
            100
        },
{
    if said > 0 {
        said as u64
    } else {
        100
    }
}

/// What becomes of the ownership of an evicted cell.
#[derive(Clone, Copy, Debug, PartialEq, Eq, Structural)]
pub enum OwnershipOnEvict {
    Release,
    Sticky,
}

/// What becomes of the ownership of an evicted cell, from what the environment
/// says.
pub fn ownership_on_evict(setting: Option<&str>) -> (ownership: Result<OwnershipOnEvict, String>)
    ensures
        match setting {
            None => ownership matches Ok(ownership) && ownership is Release,
            Some(setting) => {
                let value = text::trimmed(setting@);
                if value == "release"@ {
                    ownership matches Ok(ownership) && ownership is Release
                } else if value == "sticky"@ {
                    ownership matches Ok(ownership) && ownership is Sticky
                } else {
                    ownership matches Err(message) && message@
                        == "CELLD_PRESSURE_OWNERSHIP must be `release` or `sticky`, not `"@ + value
                        + "`"@
                }
            },
        },
{
    let setting = match setting {
        Some(setting) => setting,
        None => return Ok(OwnershipOnEvict::Release),
    };
    let value = text::trim(setting);
    if text::same(value.as_str(), "release") {
        return Ok(OwnershipOnEvict::Release);
    }
    if text::same(value.as_str(), "sticky") {
        return Ok(OwnershipOnEvict::Sticky);
    }
    let mut message = "CELLD_PRESSURE_OWNERSHIP must be `release` or `sticky`, not `".to_owned();
    message.append(value.as_str());
    message.append("`");
    Err(message)
}

/// The limit that a control group's file names; one at or above a pebibyte
/// stands for none.
pub open spec fn cgroup_limit(raw: Seq<char>) -> Option<nat> {
    match text::parsed_dec(text::trimmed(raw), u64::MAX as nat) {
        Some(limit) => if limit < 0x4_0000_0000_0000 {
            Some(limit)
        } else {
            None
        },
        None => None,
    }
}

fn read_cgroup_limit(raw: &str) -> (limit: Option<u64>)
    ensures
        limit is Some <==> cgroup_limit(raw@) is Some,
        limit matches Some(limit) ==> cgroup_limit(raw@) == Some(limit as nat),
{
    let raw = text::trim(raw);
    match text::parse_dec(raw.as_str(), u64::MAX) {
        Some(limit) => if limit < 0x4_0000_0000_0000 {
            Some(limit)
        } else {
            None
        },
        None => None,
    }
}

/// The first line that starts with `MemTotal:`, from the line at `from` on.
pub open spec fn total_line(lines: Seq<Seq<char>>, from: int) -> Option<Seq<char>>
    decreases lines.len() - from,
{
    if from < 0 || from >= lines.len() {
        None
    } else if text::has_prefix(lines[from], "MemTotal:"@) {
        Some(lines[from])
    } else {
        total_line(lines, from + 1)
    }
}

/// A number of kibibytes in bytes; the largest that fits where it is too large.
pub open spec fn kib(value: nat) -> int {
    if value * 1024 > u64::MAX {
        u64::MAX as int
    } else {
        (value * 1024) as int
    }
}

/// The machine's memory that `/proc/meminfo` names.
pub open spec fn meminfo_total(meminfo: Seq<char>) -> Option<int> {
    match total_line(text::segments(meminfo, '\n'), 0) {
        None => None,
        Some(line) => {
            let fields = text::words_from(line, 0);
            if fields.len() < 2 {
                None
            } else {
                match text::parsed_dec(fields[1], u64::MAX as nat) {
                    Some(value) => Some(kib(value)),
                    None => None,
                }
            }
        },
    }
}

fn read_meminfo(meminfo: &str) -> (total: Option<u64>)
    ensures
        total is Some <==> meminfo_total(meminfo@) is Some,
        total matches Some(total) ==> meminfo_total(meminfo@) == Some(total as int),
{
    let lines = text::split(meminfo, '\n');
    let ghost all = text::segments(meminfo@, '\n');
    let mut at: usize = 0;
    while at < lines.len()
        invariant
            at <= lines@.len(),
            text::views(lines@) == all,
            all == text::segments(meminfo@, '\n'),
            total_line(all, 0) == total_line(all, at as int),
        decreases lines@.len() - at,
    {
        assert(all[at as int] == lines@[at as int]@);
        if text::starts_with(lines[at].as_str(), "MemTotal:") {
            let fields = text::words(lines[at].as_str());
            let ghost views = text::views(fields@);
            if fields.len() < 2 {
                return None;
            }
            assert(views[1] == fields@[1]@);
            return match text::parse_dec(fields[1].as_str(), u64::MAX) {
                Some(value) => Some(
                    match value.checked_mul(1024) {
                        Some(bytes) => bytes,
                        None => u64::MAX,
                    },
                ),
                None => None,
            };
        }
        at = at + 1;
    }
    None
}

/// The memory that this process may use: the limit of its control group where
/// one applies, looked for in two files, or else the machine's.
pub fn total_memory_bytes(
    memory_max: Option<&str>,
    limit_in_bytes: Option<&str>,
    meminfo: Option<&str>,
) -> (total: Option<u64>)
    ensures
        ({
            let first = match memory_max {
                Some(raw) => cgroup_limit(raw@),
                None => None,
            };
            let second = match limit_in_bytes {
                Some(raw) => cgroup_limit(raw@),
                None => None,
            };
            let machine = match meminfo {
                Some(raw) => meminfo_total(raw@),
                None => None,
            };
            match total {
                Some(total) => if first is Some {
                    first == Some(total as nat)
                } else if second is Some {
                    second == Some(total as nat)
                } else {
                    machine == Some(total as int)
                },
                None => first is None && second is None && machine is None,
            }
        }),
{
    if let Some(raw) = memory_max {
        if let Some(limit) = read_cgroup_limit(raw) {
            return Some(limit);
        }
    }
    if let Some(raw) = limit_in_bytes {
        if let Some(limit) = read_cgroup_limit(raw) {
            return Some(limit);
        }
    }
    match meminfo {
        Some(raw) => read_meminfo(raw),
        None => None,
    }
}

/// The size of the local cache; none where it is 0.
pub fn local_cache_max_bytes(bytes: u64) -> (limit: Option<u64>)
    ensures
        limit == if bytes > 0 {
            Some(bytes)
        } else {
            None
        },
{
    if bytes > 0 {
        Some(bytes)
    } else {
        None
    }
}

proof fn lemma_bytes_hex(bytes: Seq<u8>)
    ensures
        bytes_hex(bytes).len() == 2 * bytes.len(),
    decreases bytes.len(),
{
    if bytes.len() > 0 {
        lemma_bytes_hex(bytes.drop_last());
        let value = bytes.last() as nat;
        assert(text::hex(value / 16 / 16, 0).len() == 0);
        assert(text::hex(value / 16, 1).len() == 1);
        assert(text::hex(value, 2).len() == 2);
    }
}

/// A session id has 37 characters, a process generation 64.
pub proof fn law_ids_have_fixed_lengths(session: Seq<u8>, generation: Seq<u8>)
    requires
        session.len() == 16,
        generation.len() == 32,
    ensures
        ("node_"@ + bytes_hex(session)).len() == 37,
        bytes_hex(generation).len() == 64,
{
    reveal_strlit("node_");
    lemma_bytes_hex(session);
    lemma_bytes_hex(generation);
}

proof fn lemma_byte_hex(bytes: Seq<u8>, at: int)
    requires
        0 <= at < bytes.len(),
    ensures
        bytes_hex(bytes).len() == 2 * bytes.len(),
        bytes_hex(bytes)[2 * at] == text::hex_char(bytes[at] as nat / 16),
        bytes_hex(bytes)[2 * at + 1] == text::hex_char(bytes[at] as nat % 16),
    decreases bytes.len(),
{
    lemma_bytes_hex(bytes);
    let rest = bytes.drop_last();
    lemma_bytes_hex(rest);
    let last = bytes.last() as nat;
    reveal_with_fuel(text::hex, 3);
    assert(text::hex(last / 16, 1) =~= seq![text::hex_char(last / 16 % 16)]);
    assert(text::hex(last, 2) =~= seq![text::hex_char(last / 16 % 16), text::hex_char(last % 16)]);
    assert(last / 16 % 16 == last / 16);
    if at < rest.len() {
        lemma_byte_hex(rest, at);
        assert(rest[at] == bytes[at]);
        assert(bytes_hex(bytes)[2 * at] == bytes_hex(rest)[2 * at]);
        assert(bytes_hex(bytes)[2 * at + 1] == bytes_hex(rest)[2 * at + 1]);
    }
}

/// An id spells its bytes in order, each as two hexadecimal digits in lower case with
/// the larger first; a session's has `node_` before it.
pub proof fn law_ids_spell_their_bytes(
    bytes: Vec<u8>,
    session: String,
    generation: String,
    at: int,
    high: Option<u8>,
    low: Option<u8>,
)
    requires
        call_ensures(session_id, (&bytes,), session),
        call_ensures(process_generation, (&bytes,), generation),
        0 <= at < bytes@.len(),
        call_ensures(text::hex_digit_of, (generation@[2 * at],), high),
        call_ensures(text::hex_digit_of, (generation@[2 * at + 1],), low),
    ensures
        session@ == "node_"@ + generation@,
        generation@.len() == 2 * bytes@.len(),
        high matches Some(high) && low matches Some(low) && bytes@[at] == high * 16 + low,
        !('A' <= generation@[2 * at] <= 'F') && !('A' <= generation@[2 * at + 1] <= 'F'),
{
    lemma_byte_hex(bytes@, at);
}

/// What the source gave decides the ids: none where it gave nothing, and otherwise
/// the id of 16 bytes for a session and of 32 for a process, and 32 bytes as a key.
pub proof fn law_ids_are_made_of_what_was_given(
    session: Option<String>,
    generation: Option<String>,
    key: Option<Vec<u8>>,
)
    requires
        call_ensures(random_node_session_id, (), session),
        call_ensures(random_process_generation, (), generation),
        call_ensures(random_peer_key, (), key),
    ensures
        exists|reply: Option<Vec<u8>>| #[trigger]
            source_gave(16, reply) && (session is Some <==> reply is Some) && (session matches Some(
                session,
            ) ==> reply->0@.len() == 16 && session@ == "node_"@ + bytes_hex(reply->0@)),
        exists|reply: Option<Vec<u8>>| #[trigger]
            source_gave(32, reply) && (generation is Some <==> reply is Some) && (
            generation matches Some(generation) ==> reply->0@.len() == 32 && generation@
                == bytes_hex(reply->0@)),
        source_gave(32, key),
        key matches Some(key) ==> key@.len() == 32,
{
}

proof fn lemma_last_at(text: Seq<char>, mark: char, at: int)
    requires
        0 <= at < text.len(),
        text[at] == mark,
        forall|i: int| at < i < text.len() ==> #[trigger] text[i] != mark,
    ensures
        last_at(text, mark) == at,
    decreases text.len(),
{
    if at < text.len() - 1 {
        assert(text[text.len() - 1] != mark);
        let rest = text.drop_last();
        assert forall|i: int| at < i < rest.len() implies #[trigger] rest[i] != mark by {
            assert(text[i] != mark);
        }
        lemma_last_at(rest, mark, at);
    }
}

proof fn lemma_no_last(text: Seq<char>, mark: char)
    requires
        !text.contains(mark),
    ensures
        last_at(text, mark) == -1,
    decreases text.len(),
{
    if text.len() > 0 {
        assert(text.contains(text[text.len() - 1]));
        let rest = text.drop_last();
        if rest.contains(mark) {
            let i = choose|i: int| 0 <= i < rest.len() && rest[i] == mark;
            assert(text[i] == mark);
        }
        lemma_no_last(rest, mark);
    }
}

/// The ticks of a process are the sum of the twelfth and the thirteenth word behind
/// its name, where both are numbers and their sum can be counted, and none otherwise.
pub proof fn law_ticks_are_the_sum_of_two_fields(
    stat: &str,
    ticks: Option<u64>,
    name: Seq<char>,
    gap: char,
    rest: &str,
    fields: Vec<String>,
    first: &str,
    second: &str,
    user: Option<u64>,
    system: Option<u64>,
)
    requires
        call_ensures(process_cpu_ticks, (stat,), ticks),
        stat@ == name.push(')').push(gap) + rest@,
        gap != ')' && (gap as u32) < 128,
        !rest@.contains(')'),
        call_ensures(text::words, (rest,), fields),
        fields@.len() > 12 ==> first@ == fields@[11]@ && second@ == fields@[12]@,
        call_ensures(text::parse_dec, (first, u64::MAX), user),
        call_ensures(text::parse_dec, (second, u64::MAX), system),
    ensures
        ticks is Some <==> fields@.len() > 12 && user is Some && system is Some && user->0
            + system->0 <= u64::MAX,
        ticks matches Some(ticks) ==> ticks == user->0 + system->0,
{
    let at = name.len() as int;
    assert(stat@[at] == ')');
    assert(stat@[at + 1] == gap);
    assert forall|i: int| at < i < stat@.len() implies #[trigger] stat@[i] != ')' by {
        if i > at + 1 {
            assert(stat@[i] == rest@[i - at - 2]);
            assert(rest@.contains(rest@[i - at - 2]));
        }
    }
    lemma_last_at(stat@, ')', at);
    assert(stat@.skip(at + 2) =~= rest@);
    let views = text::views(fields@);
    assert(views.len() == fields@.len());
    if fields@.len() > 12 {
        assert(views[11] == fields@[11]@ && views[12] == fields@[12]@);
    }
}

/// Without a closed name there are no ticks.
pub proof fn law_no_ticks_without_a_name(stat: &str, ticks: Option<u64>)
    requires
        call_ensures(process_cpu_ticks, (stat,), ticks),
        !stat@.contains(')') || stat@.last() == ')',
    ensures
        ticks is None,
{
    if !stat@.contains(')') {
        lemma_no_last(stat@, ')');
    } else {
        lemma_last_at(stat@, ')', stat@.len() - 1);
    }
}

/// What the system says of its clock counts where it is a number of ticks.
pub proof fn law_clock_has_at_least_one_tick(said: i64, ticks: u64)
    requires
        call_ensures(clock_ticks_per_second, (said,), ticks),
    ensures
        said > 0 ==> ticks == said,
        said <= 0 ==> ticks == 100,
{
}

/// An evicted cell's ownership is given up unless the setting says `sticky`, with or
/// without white space round it; any other setting is refused.
pub proof fn law_ownership_is_given_up_unless_sticky(
    setting: Option<&str>,
    ownership: Result<OwnershipOnEvict, String>,
    text: &str,
    value: String,
)
    requires
        call_ensures(ownership_on_evict, (setting,), ownership),
        setting matches Some(setting) ==> text@ == setting@,
        call_ensures(text::trim, (text,), value),
    ensures
        setting is None ==> ownership == Ok::<OwnershipOnEvict, String>(OwnershipOnEvict::Release),
        setting is Some ==> {
            &&& ownership == Ok::<OwnershipOnEvict, String>(OwnershipOnEvict::Release) <==> value@
                == "release"@
            &&& ownership == Ok::<OwnershipOnEvict, String>(OwnershipOnEvict::Sticky) <==> value@
                == "sticky"@
            &&& ownership is Err <==> value@ != "release"@ && value@ != "sticky"@
        },
{
    reveal_strlit("release");
    reveal_strlit("sticky");
    assert("release"@.len() == 7 && "sticky"@.len() == 6);
}

/// A control group's limit counts where it is a number below 2 to the 50th bytes; the
/// first of the two files with one decides, before the machine's memory.
pub proof fn law_control_group_limit_goes_first(
    memory_max: Option<&str>,
    limit_in_bytes: Option<&str>,
    meminfo: Option<&str>,
    total: Option<u64>,
    first: &str,
    first_trimmed: String,
    first_text: &str,
    first_limit: Option<u64>,
    second: &str,
    second_trimmed: String,
    second_text: &str,
    second_limit: Option<u64>,
    machine: Option<u64>,
)
    requires
        call_ensures(total_memory_bytes, (memory_max, limit_in_bytes, meminfo), total),
        memory_max matches Some(raw) ==> first@ == raw@,
        call_ensures(text::trim, (first,), first_trimmed),
        first_text@ == first_trimmed@,
        call_ensures(text::parse_dec, (first_text, u64::MAX), first_limit),
        limit_in_bytes matches Some(raw) ==> second@ == raw@,
        call_ensures(text::trim, (second,), second_trimmed),
        second_text@ == second_trimmed@,
        call_ensures(text::parse_dec, (second_text, u64::MAX), second_limit),
        call_ensures(total_memory_bytes, (None, None, meminfo), machine),
    ensures
        ({
            let one = memory_max is Some && first_limit is Some && first_limit->0
                < 1024 * 1024 * 1024 * 1024 * 1024;
            let two = limit_in_bytes is Some && second_limit is Some && second_limit->0
                < 1024 * 1024 * 1024 * 1024 * 1024;
            &&& one ==> total == first_limit
            &&& !one && two ==> total == second_limit
            &&& !one && !two ==> total == machine
        }),
{
}

proof fn lemma_total_line(lines: Seq<Seq<char>>, from: int, at: int)
    requires
        0 <= from <= at < lines.len(),
        text::has_prefix(lines[at], "MemTotal:"@),
        forall|i: int|
            from <= i < at ==> !text::has_prefix(#[trigger] lines[i], "MemTotal:"@),
    ensures
        total_line(lines, from) == Some(lines[at]),
    decreases at - from,
{
    if from < at {
        assert(!text::has_prefix(lines[from], "MemTotal:"@));
        lemma_total_line(lines, from + 1, at);
    }
}

proof fn lemma_no_total_line(lines: Seq<Seq<char>>, from: int)
    requires
        0 <= from <= lines.len(),
        forall|i: int|
            from <= i < lines.len() ==> !text::has_prefix(#[trigger] lines[i], "MemTotal:"@),
    ensures
        total_line(lines, from) is None,
    decreases lines.len() - from,
{
    if from < lines.len() {
        assert(!text::has_prefix(lines[from], "MemTotal:"@));
        lemma_no_total_line(lines, from + 1);
    }
}

/// The machine's memory is the second word of the first line that begins with
/// `MemTotal:`, in units of 1024 bytes, as far as bytes can be counted; without such
/// a line or number there is none.
pub proof fn law_machine_memory_is_read_from_its_line(
    meminfo: &str,
    total: Option<u64>,
    lines: Vec<String>,
    at: int,
    line: &str,
    fields: Vec<String>,
    word: &str,
    number: Option<u64>,
)
    requires
        call_ensures(total_memory_bytes, (None, None, Some(meminfo)), total),
        call_ensures(text::split, (meminfo, '\n'), lines),
        0 <= at < lines@.len(),
        line@ == lines@[at]@,
        call_ensures(text::words, (line,), fields),
        fields@.len() > 1 ==> word@ == fields@[1]@,
        call_ensures(text::parse_dec, (word, u64::MAX), number),
    ensures
        (forall|i: int| 0 <= i < lines@.len() ==> !text::has_prefix((#[trigger] lines@[i])@, "MemTotal:"@))
            ==> total is None,
        text::has_prefix(line@, "MemTotal:"@) && (forall|i: int|
            0 <= i < at ==> !text::has_prefix((#[trigger] lines@[i])@, "MemTotal:"@)) ==> {
            &&& total is Some <==> fields@.len() > 1 && number is Some
            &&& total matches Some(total) ==> total <= number->0 * 1024 && (total == number->0 * 1024
                || total == u64::MAX)
        },
{
    let all = text::views(lines@);
    assert(all.len() == lines@.len());
    assert(forall|i: int| 0 <= i < lines@.len() ==> #[trigger] all[i] == lines@[i]@);
    let views = text::views(fields@);
    assert(views.len() == fields@.len());
    if fields@.len() > 1 {
        assert(views[1] == fields@[1]@);
    }
    if forall|i: int|
        0 <= i < lines@.len() ==> !text::has_prefix((#[trigger] lines@[i])@, "MemTotal:"@) {
        assert forall|i: int| 0 <= i < all.len() implies !text::has_prefix(
            #[trigger] all[i],
            "MemTotal:"@,
        ) by {
            assert(!text::has_prefix(lines@[i]@, "MemTotal:"@));
        }
        lemma_no_total_line(all, 0);
    }
    if text::has_prefix(line@, "MemTotal:"@) && (forall|i: int|
        0 <= i < at ==> !text::has_prefix((#[trigger] lines@[i])@, "MemTotal:"@)) {
        assert forall|i: int| 0 <= i < at implies !text::has_prefix(
            #[trigger] all[i],
            "MemTotal:"@,
        ) by {
            assert(!text::has_prefix(lines@[i]@, "MemTotal:"@));
        }
        lemma_total_line(all, 0, at);
    }
}

/// A cache of no bytes is none.
pub proof fn law_empty_cache_is_none(bytes: u64, limit: Option<u64>)
    requires
        call_ensures(local_cache_max_bytes, (bytes,), limit),
    ensures
        limit is None <==> bytes == 0,
        limit matches Some(limit) ==> limit == bytes,
{
}

/// A setting that is neither of the two is told as it reads without white space.
pub proof fn law_refused_ownership_names_its_setting(
    setting: &str,
    ownership: Result<OwnershipOnEvict, String>,
    value: String,
)
    requires
        call_ensures(ownership_on_evict, (Some(setting),), ownership),
        call_ensures(text::trim, (setting,), value),
    ensures
        ownership matches Err(message) ==> message@
            == "CELLD_PRESSURE_OWNERSHIP must be `release` or `sticky`, not `"@ + value@ + "`"@,
{
}

/// The character behind a process's name must be one of ASCII.
pub proof fn law_no_ticks_behind_a_wide_character(
    stat: &str,
    ticks: Option<u64>,
    name: Seq<char>,
    gap: char,
    rest: Seq<char>,
)
    requires
        call_ensures(process_cpu_ticks, (stat,), ticks),
        stat@ == name.push(')').push(gap) + rest,
        (gap as u32) >= 128,
        !rest.contains(')'),
    ensures
        ticks is None,
{
    let at = name.len() as int;
    assert(stat@[at] == ')');
    assert(stat@[at + 1] == gap);
    assert forall|i: int| at < i < stat@.len() implies #[trigger] stat@[i] != ')' by {
        if i > at + 1 {
            assert(stat@[i] == rest[i - at - 2]);
            assert(rest.contains(rest[i - at - 2]));
        }
    }
    lemma_last_at(stat@, ')', at);
}

} // verus!
