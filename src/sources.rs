//! The capturable applications, as each platform enumerates them, and the
//! list that the user is shown.

use std::collections::HashMap;
use vstd::prelude::*;

verus! {

broadcast use vstd::std_specs::hash::group_hash_axioms;

/// One application that can be captured.
#[derive(Debug, PartialEq, Eq)]
pub struct AudioSource {
    /// Backend-specific identifier: a graph node id, a bundle identifier or
    /// a process id.
    pub id: String,
    /// Human-readable name.
    pub name: String,
}

/// The lowercase form of `s`, as `str::to_lowercase` computes it.
pub uninterp spec fn lowercase_of(s: Seq<char>) -> Seq<char>;

/// Relies on `str::to_lowercase`: the result depends on the characters alone.
#[verifier::external_body]
fn lowercase_chars(s: &str) -> (r: Vec<char>)
    ensures
        r@ == lowercase_of(s@),
{
    s.to_lowercase().chars().collect()
}

/// `a` comes before `b`, or equals it, comparing code points from the left.
pub open spec fn chars_le(a: Seq<char>, b: Seq<char>) -> bool
    decreases a.len(),
{
    if a.len() == 0 {
        true
    } else if b.len() == 0 {
        false
    } else if a[0] != b[0] {
        (a[0] as u32) < (b[0] as u32)
    } else {
        chars_le(a.drop_first(), b.drop_first())
    }
}

/// The index of the first source in `found` named `name`, or `found.len()`
/// if there is none.
pub open spec fn first_named(found: Seq<AudioSource>, name: Seq<char>) -> int
    decreases found.len(),
{
    if found.len() == 0 {
        0
    } else if found[0].name@ == name {
        0
    } else {
        1 + first_named(found.drop_first(), name)
    }
}

/// The sort keys, as sequences of characters.
pub open spec fn key_views(keys: Seq<Vec<char>>) -> Seq<Seq<char>> {
    keys.map_values(|k: Vec<char>| k@)
}

/// The sort key of each enumerated source: its name, case-insensitively.
pub open spec fn name_keys(found: Seq<AudioSource>) -> Seq<Seq<char>> {
    found.map_values(|s: AudioSource| lowercase_of(s.name@))
}

/// The key of a listed source: that of the first source found with its name.
pub open spec fn key_of(found: Seq<AudioSource>, keys: Seq<Seq<char>>, s: AudioSource) -> Seq<
    char,
> {
    keys[first_named(found, s.name@)]
}

/// `shown` lists the enumerated sources `found` under the sort keys `keys`
/// (one per source found): one source per distinct non-empty name, the first
/// one found with that name, in the order of the keys, ties kept in the
/// order found.
pub open spec fn is_sorted_list(
    found: Seq<AudioSource>,
    keys: Seq<Seq<char>>,
    shown: Seq<AudioSource>,
) -> bool {
    &&& forall|k: int|
        0 <= k < shown.len() ==> {
            let i = first_named(found, #[trigger] shown[k].name@);
            &&& shown[k].name@.len() > 0
            &&& 0 <= i < found.len()
            &&& shown[k] == found[i]
        }
    &&& forall|i: int|
        0 <= i < found.len() && (#[trigger] found[i]).name@.len() > 0 ==> exists|k: int|
            0 <= k < shown.len() && (#[trigger] shown[k]).name@ == found[i].name@
    &&& forall|k1: int, k2: int|
        0 <= k1 < k2 < shown.len() ==> (#[trigger] shown[k1]).name@ != (#[trigger] shown[k2]).name@
    &&& forall|k1: int, k2: int|
        0 <= k1 < k2 < shown.len() ==> {
            &&& chars_le(key_of(found, keys, #[trigger] shown[k1]), key_of(found, keys, #[trigger] shown[k2]))
            &&& key_of(found, keys, shown[k1]) == key_of(found, keys, shown[k2]) ==> first_named(
                found,
                shown[k1].name@,
            ) < first_named(found, shown[k2].name@)
        }
}

/// `shown` is the list to show for the enumerated sources `found`: one
/// source per distinct non-empty name, the first one found with that name,
/// sorted case-insensitively by name, ties kept in the order found.
pub open spec fn is_tidy_list(found: Seq<AudioSource>, shown: Seq<AudioSource>) -> bool {
    is_sorted_list(found, name_keys(found), shown)
}

proof fn lemma_chars_le_reflexive(a: Seq<char>)
    ensures
        chars_le(a, a),
    decreases a.len(),
{
    if a.len() > 0 {
        lemma_chars_le_reflexive(a.drop_first());
    }
}

proof fn lemma_chars_le_total(a: Seq<char>, b: Seq<char>)
    ensures
        chars_le(a, b) || chars_le(b, a),
    decreases a.len(),
{
    if a.len() > 0 && b.len() > 0 {
        if a[0] == b[0] {
            lemma_chars_le_total(a.drop_first(), b.drop_first());
        } else {
            vstd::utf8::char_u32_cast(a[0], a[0] as u32);
            vstd::utf8::char_u32_cast(b[0], b[0] as u32);
        }
    }
}

proof fn lemma_chars_le_transitive(a: Seq<char>, b: Seq<char>, c: Seq<char>)
    requires
        chars_le(a, b),
        chars_le(b, c),
    ensures
        chars_le(a, c),
    decreases a.len(),
{
    if a.len() > 0 && b.len() > 0 && c.len() > 0 {
        if a[0] == b[0] && b[0] == c[0] {
            lemma_chars_le_transitive(a.drop_first(), b.drop_first(), c.drop_first());
        } else {
            vstd::utf8::char_u32_cast(a[0], a[0] as u32);
            vstd::utf8::char_u32_cast(b[0], b[0] as u32);
            vstd::utf8::char_u32_cast(c[0], c[0] as u32);
        }
    }
}

proof fn lemma_first_named(found: Seq<AudioSource>, i: int)
    requires
        0 <= i < found.len(),
        forall|j: int| 0 <= j < i ==> (#[trigger] found[j]).name@ != found[i].name@,
    ensures
        first_named(found, found[i].name@) == i,
    decreases i,
{
    if i > 0 {
        let rest = found.drop_first();
        assert forall|j: int| 0 <= j < i - 1 implies (#[trigger] rest[j]).name@ != rest[i
            - 1].name@ by {
            assert(rest[j] == found[j + 1]);
        }
        lemma_first_named(rest, i - 1);
        assert(found[0].name@ != found[i].name@);
    }
}

/// Compares two keys; see `chars_le`.
fn keys_le(a: &Vec<char>, b: &Vec<char>) -> (r: bool)
    ensures
        r == chars_le(a@, b@),
{
    let mut i: usize = 0;
    assert(a@.subrange(0, a@.len() as int) =~= a@);
    assert(b@.subrange(0, b@.len() as int) =~= b@);
    while i < a.len() && i < b.len() && a[i] == b[i]
        invariant
            i <= a@.len(),
            i <= b@.len(),
            chars_le(a@, b@) == chars_le(
                a@.subrange(i as int, a@.len() as int),
                b@.subrange(i as int, b@.len() as int),
            ),
        decreases a@.len() - i,
    {
        assert(a@.subrange(i as int, a@.len() as int).drop_first() =~= a@.subrange(
            i as int + 1,
            a@.len() as int,
        ));
        assert(b@.subrange(i as int, b@.len() as int).drop_first() =~= b@.subrange(
            i as int + 1,
            b@.len() as int,
        ));
        i += 1;
    }
    if i == a.len() {
        true
    } else if i == b.len() {
        false
    } else {
        (a[i] as u32) < (b[i] as u32)
    }
}

/// Lists the enumerated sources `found` under the sort keys `keys`, one per
/// source found: sources with an empty name are dropped, the rest are
/// deduplicated by name (the first one found is kept) and ordered by key.
pub fn tidy_sources_by_keys(found: &Vec<AudioSource>, keys: &Vec<Vec<char>>) -> (shown: Vec<
    AudioSource,
>)
    requires
        keys@.len() == found@.len(),
    ensures
        is_sorted_list(found@, key_views(keys@), shown@),
{
    let ghost ks = key_views(keys@);
    let mut shown: Vec<AudioSource> = Vec::new();
    let mut order: Vec<usize> = Vec::new();
    let mut i: usize = 0;
    while i < found.len()
        invariant
            ks == key_views(keys@),
            keys@.len() == found@.len(),
            i <= found@.len(),
            shown@.len() == order@.len(),
            forall|k: int|
                0 <= k < shown@.len() ==> {
                    &&& 0 <= #[trigger] order@[k] < i
                    &&& shown@[k] == found@[order@[k] as int]
                    &&& shown@[k].name@.len() > 0
                    &&& order@[k] == first_named(found@, shown@[k].name@)
                },
            forall|k1: int, k2: int|
                0 <= k1 < k2 < shown@.len() ==> (#[trigger] shown@[k1]).name@
                    != (#[trigger] shown@[k2]).name@,
            forall|k1: int, k2: int|
                0 <= k1 < k2 < order@.len() ==> {
                    &&& chars_le(ks[#[trigger] order@[k1] as int], ks[#[trigger] order@[k2] as int])
                    &&& ks[order@[k1] as int] == ks[order@[k2] as int] ==> order@[k1] < order@[k2]
                },
            forall|j: int|
                0 <= j < i && (#[trigger] found@[j]).name@.len() > 0 ==> exists|k: int|
                    0 <= k < shown@.len() && (#[trigger] shown@[k]).name@ == found@[j].name@,
        decreases found@.len() - i,
    {
        let source = &found[i];
        if source.name.as_str().is_empty() {
            i += 1;
            continue;
        }
        let mut k: usize = 0;
        while k < shown.len() && !(shown[k].name == source.name)
            invariant
                k <= shown@.len(),
                forall|m: int| 0 <= m < k ==> (#[trigger] shown@[m]).name@ != source.name@,
            decreases shown@.len() - k,
        {
            k += 1;
        }
        if k < shown.len() {
            i += 1;
            continue;
        }
        proof {
            assert forall|j: int| 0 <= j < i implies (#[trigger] found@[j]).name@
                != found@[i as int].name@ by {
                if found@[j].name@.len() > 0 {
                    let k2 = choose|k2: int|
                        0 <= k2 < shown@.len() && (#[trigger] shown@[k2]).name@
                            == found@[j].name@;
                    assert(shown@[k2].name@ != source.name@);
                }
            }
            lemma_first_named(found@, i as int);
        }
        let mut p: usize = 0;
        while p < order.len() && keys_le(&keys[order[p]], &keys[i])
            invariant
                ks == key_views(keys@),
                keys@.len() == found@.len(),
                i < found@.len(),
                p <= order@.len(),
                forall|k: int| 0 <= k < order@.len() ==> #[trigger] order@[k] < i,
                forall|m: int| 0 <= m < p ==> chars_le(ks[#[trigger] order@[m] as int], ks[i as int]),
            decreases order@.len() - p,
        {
            p += 1;
        }
        let ghost old_shown = shown@;
        let ghost old_order = order@;
        let ghost new_key = ks[i as int];
        proof {
            assert forall|m: int| p <= m < old_order.len() implies !chars_le(
                ks[#[trigger] old_order[m] as int],
                new_key,
            ) by {
                if m > p {
                    assert(chars_le(ks[old_order[p as int] as int], ks[old_order[m] as int]));
                    if chars_le(ks[old_order[m] as int], new_key) {
                        lemma_chars_le_transitive(
                            ks[old_order[p as int] as int],
                            ks[old_order[m] as int],
                            new_key,
                        );
                    }
                }
            }
            assert forall|m: int| p <= m < old_order.len() implies chars_le(
                new_key,
                ks[#[trigger] old_order[m] as int],
            ) && new_key != ks[old_order[m] as int] by {
                lemma_chars_le_total(new_key, ks[old_order[m] as int]);
                if new_key == ks[old_order[m] as int] {
                    lemma_chars_le_reflexive(new_key);
                }
            }
        }
        let entry = AudioSource { id: source.id.clone(), name: source.name.clone() };
        shown.insert(p, entry);
        order.insert(p, i);
        proof {
            assert forall|k1: int, k2: int| 0 <= k1 < k2 < order@.len() implies {
                &&& chars_le(ks[#[trigger] order@[k1] as int], ks[#[trigger] order@[k2] as int])
                &&& ks[order@[k1] as int] == ks[order@[k2] as int] ==> order@[k1] < order@[k2]
            } by {
                if k2 == p {
                    assert(order@[k1] == old_order[k1]);
                } else if k1 == p {
                    assert(order@[k2] == old_order[k2 - 1]);
                } else {
                    let o1 = if k1 < p { k1 } else { k1 - 1 };
                    let o2 = if k2 < p { k2 } else { k2 - 1 };
                    assert(order@[k1] == old_order[o1]);
                    assert(order@[k2] == old_order[o2]);
                }
            }
            assert forall|j: int|
                0 <= j < i + 1 && (#[trigger] found@[j]).name@.len() > 0 implies exists|k: int|
                0 <= k < shown@.len() && (#[trigger] shown@[k]).name@ == found@[j].name@ by {
                if j == i {
                    assert(shown@[p as int].name@ == found@[j].name@);
                } else {
                    let k2 = choose|k2: int|
                        0 <= k2 < old_shown.len() && (#[trigger] old_shown[k2]).name@
                            == found@[j].name@;
                    if k2 < p {
                        assert(shown@[k2] == old_shown[k2]);
                    } else {
                        assert(shown@[k2 + 1] == old_shown[k2]);
                    }
                }
            }
        }
        i += 1;
    }
    proof {
        assert forall|k: int| 0 <= k < shown@.len() implies {
            let i = first_named(found@, #[trigger] shown@[k].name@);
            &&& shown@[k].name@.len() > 0
            &&& 0 <= i < found@.len()
            &&& shown@[k] == found@[i]
        } by {
            assert(0 <= order@[k] < found@.len());
        }
        assert forall|k1: int, k2: int| 0 <= k1 < k2 < shown@.len() implies {
            &&& chars_le(key_of(found@, ks, #[trigger] shown@[k1]), key_of(found@, ks, #[trigger] shown@[k2]))
            &&& key_of(found@, ks, shown@[k1]) == key_of(found@, ks, shown@[k2]) ==> first_named(
                found@,
                shown@[k1].name@,
            ) < first_named(found@, shown@[k2].name@)
        } by {
            assert(0 <= order@[k1] < found@.len());
            assert(0 <= order@[k2] < found@.len());
        }
    }
    shown
}

/// The list to show for the enumerated sources `found`: sources with an
/// empty name are dropped, the rest are deduplicated by name (the first one
/// found is kept) and sorted case-insensitively by name.
pub fn tidy_sources(found: &Vec<AudioSource>) -> (shown: Vec<AudioSource>)
    ensures
        is_tidy_list(found@, shown@),
{
    let mut keys: Vec<Vec<char>> = Vec::new();
    let mut i: usize = 0;
    while i < found.len()
        invariant
            i <= found@.len(),
            keys@.len() == i,
            key_views(keys@) == name_keys(found@).subrange(0, i as int),
        decreases found@.len() - i,
    {
        let ghost before = keys@;
        let key = lowercase_chars(found[i].name.as_str());
        keys.push(key);
        assert forall|j: int| 0 <= j <= i implies #[trigger] key_views(keys@)[j] == name_keys(
            found@,
        )[j] by {
            if j < i {
                assert(keys@[j] == before[j]);
                assert(key_views(before)[j] == name_keys(found@).subrange(0, i as int)[j]);
            }
        }
        i += 1;
        assert(key_views(keys@) =~= name_keys(found@).subrange(0, i as int));
    }
    assert(name_keys(found@).subrange(0, i as int) =~= name_keys(found@));
    tidy_sources_by_keys(found, &keys)
}

/// Media class of the audio graph nodes that are application output streams.
pub const AUDIO_OUTPUT_CLASS: &'static str = "Stream/Output/Audio";

/// Name given to an output stream that advertises none.
pub const UNNAMED_STREAM: &'static str = "Unknown";

/// The character for a decimal digit.
pub open spec fn digit_char(d: nat) -> char {
    seq!['0', '1', '2', '3', '4', '5', '6', '7', '8', '9'][d as int]
}

/// The decimal digits of `n`, most significant first, without leading zeros.
pub open spec fn decimal_text(n: nat) -> Seq<char>
    decreases n,
{
    if n < 10 {
        seq![digit_char(n)]
    } else {
        decimal_text(n / 10).push(digit_char(n % 10))
    }
}

/// Relies on `u32::to_string`: the decimal digits of `n`, without sign or
/// leading zeros.
#[verifier::external_body]
fn decimal_string(n: u32) -> (r: String)
    ensures
        r@ == decimal_text(n as nat),
{
    n.to_string()
}

/// The name shown for an output stream: its application name, else its
/// node name, else `UNNAMED_STREAM`.
pub open spec fn stream_name(app_name: Option<&str>, node_name: Option<&str>) -> Seq<char> {
    match app_name {
        Some(a) => a@,
        None => match node_name {
            Some(n) => n@,
            None => UNNAMED_STREAM@,
        },
    }
}

/// The source for one node of the audio graph, if the node is an
/// application's output stream; its id is the node id in decimal.
pub fn source_from_node(
    node_id: u32,
    media_class: Option<&str>,
    app_name: Option<&str>,
    node_name: Option<&str>,
) -> (r: Option<AudioSource>)
    ensures
        match r {
            Some(s) => {
                &&& media_class matches Some(c) && c@ == AUDIO_OUTPUT_CLASS@
                &&& s.id@ == decimal_text(node_id as nat)
                &&& s.name@ == stream_name(app_name, node_name)
            },
            None => !(media_class matches Some(c) && c@ == AUDIO_OUTPUT_CLASS@),
        },
{
    let class = match media_class {
        Some(c) => c,
        None => return None,
    };
    if !(class.to_owned() == AUDIO_OUTPUT_CLASS.to_owned()) {
        return None;
    }
    let name = match app_name {
        Some(a) => a.to_owned(),
        None => match node_name {
            Some(n) => n.to_owned(),
            None => UNNAMED_STREAM.to_owned(),
        },
    };
    Some(AudioSource { id: decimal_string(node_id), name })
}

/// The source for one application that the content-capture framework lists,
/// unless its bundle identifier is empty; it is named by its application
/// name, else by its bundle identifier.
pub fn source_from_app(bundle_id: &str, app_name: Option<&str>) -> (r: Option<AudioSource>)
    ensures
        match r {
            Some(s) => {
                &&& bundle_id@.len() > 0
                &&& s.id@ == bundle_id@
                &&& s.name@ == match app_name {
                    Some(n) => n@,
                    None => bundle_id@,
                }
            },
            None => bundle_id@.len() == 0,
        },
{
    if bundle_id.is_empty() {
        return None;
    }
    let name = match app_name {
        Some(n) => n.to_owned(),
        None => bundle_id.to_owned(),
    };
    Some(AudioSource { id: bundle_id.to_owned(), name })
}

/// A session whose process to offer: an active one, not the system mixer
/// (process 0).
pub open spec fn is_offered_session(session: (u32, bool)) -> bool {
    session.0 != 0 && session.1
}

/// The process ids of the offered sessions, in order.
pub open spec fn active_pids(sessions: Seq<(u32, bool)>) -> Seq<u32> {
    sessions.filter(|s: (u32, bool)| is_offered_session(s)).map_values(|s: (u32, bool)| s.0)
}

/// Picks, from `(process id, is active)` pairs, the processes to offer.
pub fn active_session_pids(sessions: &Vec<(u32, bool)>) -> (pids: Vec<u32>)
    ensures
        pids@ == active_pids(sessions@),
{
    let mut pids: Vec<u32> = Vec::new();
    let mut i: usize = 0;
    while i < sessions.len()
        invariant
            i <= sessions@.len(),
            pids@ == active_pids(sessions@.subrange(0, i as int)),
        decreases sessions@.len() - i,
    {
        assert(sessions@.subrange(0, i as int + 1).drop_last() =~= sessions@.subrange(
            0,
            i as int,
        ));
        proof {
            reveal_with_fuel(Seq::filter, 1);
        }
        let (pid, active) = sessions[i];
        if pid != 0 && active {
            pids.push(pid);
        }
        assert(pids@ =~= active_pids(sessions@.subrange(0, i as int + 1)));
        i += 1;
    }
    assert(sessions@.subrange(0, sessions@.len() as int) =~= sessions@);
    pids
}

/// The id and name of a source.
pub open spec fn source_view(s: AudioSource) -> (Seq<char>, Seq<char>) {
    (s.id@, s.name@)
}

/// A process that `names` names, with a name that is not empty.
pub open spec fn is_named_pid(names: Map<u32, String>, pid: u32) -> bool {
    names.contains_key(pid) && names[pid]@.len() > 0
}

/// One source per process in `pids` that `names` names, in order: its id
/// is the process id in decimal.
pub open spec fn pid_sources(pids: Seq<u32>, names: Map<u32, String>) -> Seq<
    (Seq<char>, Seq<char>),
> {
    pids.filter(|pid: u32| is_named_pid(names, pid)).map_values(
        |pid: u32| (decimal_text(pid as nat), names[pid]@),
    )
}

/// Names the processes in `pids` from the process table `names`.
pub fn sources_for_pids(pids: &Vec<u32>, names: &HashMap<u32, String>) -> (found: Vec<
    AudioSource,
>)
    ensures
        found@.map_values(|s: AudioSource| source_view(s)) == pid_sources(pids@, names@),
{
    let mut found: Vec<AudioSource> = Vec::new();
    let mut i: usize = 0;
    while i < pids.len()
        invariant
            i <= pids@.len(),
            found@.map_values(|s: AudioSource| source_view(s)) == pid_sources(
                pids@.subrange(0, i as int),
                names@,
            ),
        decreases pids@.len() - i,
    {
        assert(pids@.subrange(0, i as int + 1).drop_last() =~= pids@.subrange(0, i as int));
        proof {
            reveal_with_fuel(Seq::filter, 1);
        }
        let pid = pids[i];
        match names.get(&pid) {
            Some(name) => {
                if !name.as_str().is_empty() {
                    let ghost before = found@;
                    found.push(AudioSource { id: decimal_string(pid), name: name.clone() });
                    assert(found@.map_values(|s: AudioSource| source_view(s)) =~= before.map_values(
                        |s: AudioSource| source_view(s),
                    ).push((decimal_text(pid as nat), names@[pid]@)));
                }
            },
            None => {},
        }
        assert(found@.map_values(|s: AudioSource| source_view(s)) =~= pid_sources(
            pids@.subrange(0, i as int + 1),
            names@,
        ));
        i += 1;
    }
    assert(pids@.subrange(0, pids@.len() as int) =~= pids@);
    found
}

/// A decimal digit character.
pub open spec fn is_digit(c: char) -> bool {
    48 <= c as u32 <= 57
}

/// The value of a string of decimal digits.
pub open spec fn digits_value(s: Seq<char>) -> nat
    decreases s.len(),
{
    if s.len() == 0 {
        0
    } else {
        digits_value(s.drop_last()) * 10 + (s.last() as u32 - 48) as nat
    }
}

/// `s` without the one leading `+` that it may have.
pub open spec fn unsigned_part(s: Seq<char>) -> Seq<char> {
    if s.len() > 0 && s[0] == '+' {
        s.drop_first()
    } else {
        s
    }
}

/// One or more decimal digits.
pub open spec fn is_decimal(s: Seq<char>) -> bool {
    s.len() > 0 && forall|i: int| 0 <= i < s.len() ==> is_digit(#[trigger] s[i])
}

proof fn lemma_decimal_text_digits(n: nat)
    ensures
        forall|i: int|
            0 <= i < decimal_text(n).len() ==> is_digit(#[trigger] decimal_text(n)[i]),
        decimal_text(n).len() > 0,
        digits_value(decimal_text(n)) == n,
    decreases n,
{
    let digits = seq!['0', '1', '2', '3', '4', '5', '6', '7', '8', '9'];
    assert forall|d: int| 0 <= d < 10 implies is_digit(#[trigger] digits[d]) && digits[d] as u32
        - 48 == d by {
        assert(digits[0] == '0' && digits[1] == '1' && digits[2] == '2' && digits[3] == '3');
        assert(digits[4] == '4' && digits[5] == '5' && digits[6] == '6' && digits[7] == '7');
        assert(digits[8] == '8' && digits[9] == '9');
    }
    if n < 10 {
        assert(digit_char(n) == digits[n as int]);
        assert(decimal_text(n).drop_last() =~= Seq::<char>::empty());
        assert(digits_value(Seq::<char>::empty()) == 0);
        assert(digits_value(decimal_text(n)) == (decimal_text(n).last() as u32 - 48) as nat);
    } else {
        lemma_decimal_text_digits(n / 10);
        assert(digit_char(n % 10) == digits[(n % 10) as int]);
        assert(decimal_text(n).drop_last() =~= decimal_text(n / 10));
        assert(digits_value(decimal_text(n)) == digits_value(decimal_text(n / 10)) * 10 + (
        digit_char(n % 10) as u32 - 48) as nat);
        assert((n / 10) * 10 + n % 10 == n);
    }
}

/// Every id that enumeration writes for a graph node or a process, the
/// number in decimal, reads back as that number.
pub proof fn lemma_decimal_id_round_trip(n: u32)
    ensures
        is_decimal(unsigned_part(decimal_text(n as nat))),
        digits_value(unsigned_part(decimal_text(n as nat))) == n,
{
    lemma_decimal_text_digits(n as nat);
    let t = decimal_text(n as nat);
    assert(is_digit(t[0]));
    assert(t[0] != '+') by {
        if t[0] == '+' {
            assert('+' as u32 == 43);
        }
    }
}

/// The number that a source id names, read as `str::parse::<u32>` reads it:
/// an optional `+`, then decimal digits whose value fits in a `u32`.
pub fn parse_source_id(id: &str) -> (r: Option<u32>)
    ensures
        match r {
            Some(n) => is_decimal(unsigned_part(id@)) && digits_value(unsigned_part(id@)) == n,
            None => !is_decimal(unsigned_part(id@)) || digits_value(unsigned_part(id@))
                > u32::MAX,
        },
{
    let len = id.unicode_len();
    let ghost digits = unsigned_part(id@);
    let mut i: usize = 0;
    if len > 0 && id.get_char(0) == '+' {
        i = 1;
    }
    if i == len {
        return None;
    }
    let start = i;
    assert(digits =~= id@.subrange(start as int, len as int));
    let mut value: u64 = 0;
    let mut overflowed = false;
    while i < len
        invariant
            len == id@.len(),
            digits == unsigned_part(id@),
            digits == id@.subrange(start as int, len as int),
            start <= i <= len,
            forall|k: int| start <= k < i ==> is_digit(#[trigger] id@[k]),
            value <= u32::MAX,
            !overflowed ==> value == digits_value(id@.subrange(start as int, i as int)),
            overflowed ==> digits_value(id@.subrange(start as int, i as int)) > u32::MAX,
        decreases len - i,
    {
        let c = id.get_char(i);
        let code = c as u32;
        if code < 48 || code > 57 {
            assert(!is_digit(digits[i - start]));
            return None;
        }
        let ghost prefix = id@.subrange(start as int, i as int + 1);
        assert(prefix.drop_last() =~= id@.subrange(start as int, i as int));
        if !overflowed {
            let next = value * 10 + (code - 48) as u64;
            if next > u32::MAX as u64 {
                overflowed = true;
            } else {
                value = next;
            }
        }
        i += 1;
    }
    assert(id@.subrange(start as int, len as int) =~= digits);
    if overflowed {
        None
    } else {
        Some(value as u32)
    }
}

} // verus!
