//! The `mntr` command: a server's monitoring counters.
use vstd::prelude::*;
use vstd::pervasive::VecAdditionalExecFns;

use crate::error::{Error, Result};
use crate::text::{entries, i64_of, pair_views, parse_i64, same_text, split_entries};
use crate::FourLetterWord;

verus! {

/// The `mntr` command.
pub struct Mntr;

/// Reply to the `mntr` command.
///
/// Fields that the reply carries but that are not listed here stay in
/// `zk_extras` as text, one pair per key.
#[derive(Debug)]
pub struct Response {
    pub zk_version: String,
    pub zk_avg_latency: i64,
    pub zk_max_latency: i64,
    pub zk_min_latency: i64,
    pub zk_packets_received: i64,
    pub zk_packets_sent: i64,
    pub zk_outstanding_requests: i64,
    pub zk_server_state: String,
    pub zk_znode_count: i64,
    pub zk_watch_count: i64,
    pub zk_ephemerals_count: i64,
    pub zk_approximate_data_size: i64,
    pub zk_followers: Option<i64>,
    pub zk_synced_followers: Option<i64>,
    pub zk_pending_syncs: Option<i64>,
    pub zk_open_file_descriptor_count: Option<i64>,
    pub zk_max_file_descriptor_count: Option<i64>,
    pub zk_extras: Vec<(String, String)>,
}

/// Keys whose value is a signed 64-bit counter.
pub open spec fn is_int_key(k: Seq<char>) -> bool {
    ||| k == "zk_avg_latency"@
    ||| k == "zk_max_latency"@
    ||| k == "zk_min_latency"@
    ||| k == "zk_packets_received"@
    ||| k == "zk_packets_sent"@
    ||| k == "zk_outstanding_requests"@
    ||| k == "zk_znode_count"@
    ||| k == "zk_watch_count"@
    ||| k == "zk_ephemerals_count"@
    ||| k == "zk_approximate_data_size"@
    ||| k == "zk_followers"@
    ||| k == "zk_synced_followers"@
    ||| k == "zk_pending_syncs"@
    ||| k == "zk_open_file_descriptor_count"@
    ||| k == "zk_max_file_descriptor_count"@
}

/// Keys that have a field of their own in a `Response`.
pub open spec fn is_known_key(k: Seq<char>) -> bool {
    ||| k == "zk_version"@
    ||| k == "zk_server_state"@
    ||| is_int_key(k)
}

/// The value of the last entry with key `k`: a later line overrides an
/// earlier one.
pub open spec fn last_value(ps: Seq<(Seq<char>, Seq<char>)>, k: Seq<char>) -> Option<Seq<char>>
    decreases ps.len(),
{
    if ps.len() == 0 {
        None
    } else if ps.last().0 == k {
        Some(ps.last().1)
    } else {
        last_value(ps.drop_last(), k)
    }
}

/// The counter that the last entry with key `k` holds.
pub open spec fn int_value(ps: Seq<(Seq<char>, Seq<char>)>, k: Seq<char>) -> Option<i64> {
    match last_value(ps, k) {
        Some(v) => i64_of(v),
        None => None,
    }
}

/// Some entry of a counter key holds text that is not an `i64`.
pub open spec fn bad_integer(ps: Seq<(Seq<char>, Seq<char>)>) -> bool {
    exists|i: int| 0 <= i < ps.len() && is_int_key(ps[i].0) && (#[trigger] i64_of(ps[i].1)) is None
}

/// The first required key, in the order of the fields of `Response`, that no
/// entry carries.
pub open spec fn first_missing(ps: Seq<(Seq<char>, Seq<char>)>) -> Option<Seq<char>> {
    if last_value(ps, "zk_version"@) is None {
        Some("zk_version"@)
    } else if last_value(ps, "zk_avg_latency"@) is None {
        Some("zk_avg_latency"@)
    } else if last_value(ps, "zk_max_latency"@) is None {
        Some("zk_max_latency"@)
    } else if last_value(ps, "zk_min_latency"@) is None {
        Some("zk_min_latency"@)
    } else if last_value(ps, "zk_packets_received"@) is None {
        Some("zk_packets_received"@)
    } else if last_value(ps, "zk_packets_sent"@) is None {
        Some("zk_packets_sent"@)
    } else if last_value(ps, "zk_outstanding_requests"@) is None {
        Some("zk_outstanding_requests"@)
    } else if last_value(ps, "zk_server_state"@) is None {
        Some("zk_server_state"@)
    } else if last_value(ps, "zk_znode_count"@) is None {
        Some("zk_znode_count"@)
    } else if last_value(ps, "zk_watch_count"@) is None {
        Some("zk_watch_count"@)
    } else if last_value(ps, "zk_ephemerals_count"@) is None {
        Some("zk_ephemerals_count"@)
    } else if last_value(ps, "zk_approximate_data_size"@) is None {
        Some("zk_approximate_data_size"@)
    } else {
        None
    }
}

/// `v` holds exactly the entries of unknown keys, each key once, with the
/// value of its last entry.
pub open spec fn extras_match(v: Seq<(String, String)>, ps: Seq<(Seq<char>, Seq<char>)>) -> bool {
    &&& forall|j: int|
        0 <= j < v.len() ==> !is_known_key(#[trigger] v[j].0@) && last_value(ps, v[j].0@) == Some(
            v[j].1@,
        )
    &&& forall|k: Seq<char>|
        !is_known_key(k) && (#[trigger] last_value(ps, k)) is Some ==> exists|j: int|
            0 <= j < v.len() && (#[trigger] v[j]).0@ == k
    &&& forall|j1: int, j2: int| 0 <= j1 < j2 < v.len() ==> v[j1].0@ != v[j2].0@
}

impl Response {
    /// Every field holds what the entries `ps` give it.
    pub open spec fn describes(&self, ps: Seq<(Seq<char>, Seq<char>)>) -> bool {
        &&& last_value(ps, "zk_version"@) == Some(self.zk_version@)
        &&& int_value(ps, "zk_avg_latency"@) == Some(self.zk_avg_latency)
        &&& int_value(ps, "zk_max_latency"@) == Some(self.zk_max_latency)
        &&& int_value(ps, "zk_min_latency"@) == Some(self.zk_min_latency)
        &&& int_value(ps, "zk_packets_received"@) == Some(self.zk_packets_received)
        &&& int_value(ps, "zk_packets_sent"@) == Some(self.zk_packets_sent)
        &&& int_value(ps, "zk_outstanding_requests"@) == Some(self.zk_outstanding_requests)
        &&& last_value(ps, "zk_server_state"@) == Some(self.zk_server_state@)
        &&& int_value(ps, "zk_znode_count"@) == Some(self.zk_znode_count)
        &&& int_value(ps, "zk_watch_count"@) == Some(self.zk_watch_count)
        &&& int_value(ps, "zk_ephemerals_count"@) == Some(self.zk_ephemerals_count)
        &&& int_value(ps, "zk_approximate_data_size"@) == Some(self.zk_approximate_data_size)
        &&& self.zk_followers == int_value(ps, "zk_followers"@)
        &&& self.zk_synced_followers == int_value(ps, "zk_synced_followers"@)
        &&& self.zk_pending_syncs == int_value(ps, "zk_pending_syncs"@)
        &&& self.zk_open_file_descriptor_count == int_value(ps, "zk_open_file_descriptor_count"@)
        &&& self.zk_max_file_descriptor_count == int_value(ps, "zk_max_file_descriptor_count"@)
        &&& extras_match(self.zk_extras@, ps)
    }
}

/// What decoding the entries `ps` gives: a counter that is not an integer
/// fails first, then the first missing required field; otherwise the response
/// that the entries describe.
pub open spec fn mntr_result(ps: Seq<(Seq<char>, Seq<char>)>, r: Result<Response>) -> bool {
    match r {
        Ok(resp) => !bad_integer(ps) && first_missing(ps) is None && resp.describes(ps),
        Err(Error::Parse(_)) => bad_integer(ps),
        Err(Error::MissingField(name)) => !bad_integer(ps) && first_missing(ps) == Some(name@),
        Err(_) => false,
    }
}

/// Whether `k` is a counter key.
pub fn int_key(k: &str) -> (r: bool)
    ensures
        r == is_int_key(k@),
{
    same_text(k, "zk_avg_latency")
        || same_text(k, "zk_max_latency")
        || same_text(k, "zk_min_latency")
        || same_text(k, "zk_packets_received")
        || same_text(k, "zk_packets_sent")
        || same_text(k, "zk_outstanding_requests")
        || same_text(k, "zk_znode_count")
        || same_text(k, "zk_watch_count")
        || same_text(k, "zk_ephemerals_count")
        || same_text(k, "zk_approximate_data_size")
        || same_text(k, "zk_followers")
        || same_text(k, "zk_synced_followers")
        || same_text(k, "zk_pending_syncs")
        || same_text(k, "zk_open_file_descriptor_count")
        || same_text(k, "zk_max_file_descriptor_count")
}

/// Whether `k` has a field of its own in a `Response`.
pub fn known_key(k: &str) -> (r: bool)
    ensures
        r == is_known_key(k@),
{
    same_text(k, "zk_version") || same_text(k, "zk_server_state") || int_key(k)
}

proof fn lemma_last_value_take(ps: Seq<(Seq<char>, Seq<char>)>, i: int, k: Seq<char>)
    requires
        0 <= i < ps.len(),
    ensures
        last_value(ps.take(i + 1), k) == if ps[i].0 == k {
            Some(ps[i].1)
        } else {
            last_value(ps.take(i), k)
        },
{
    assert(ps.take(i + 1).drop_last() =~= ps.take(i));
}

/// Position of the last entry with key `key`.
fn find_last(ps: &Vec<(String, String)>, key: &str) -> (r: Option<usize>)
    ensures
        match r {
            Some(i) => i < ps@.len() && ps@[i as int].0@ == key@ && last_value(
                pair_views(ps@),
                key@,
            ) == Some(ps@[i as int].1@),
            None => last_value(pair_views(ps@), key@) is None,
        },
{
    let ghost pv = pair_views(ps@);
    let mut i = ps.len();
    assert(pv.take(i as int) =~= pv);
    while i > 0
        invariant
            pv == pair_views(ps@),
            i <= ps@.len(),
            last_value(pv, key@) == last_value(pv.take(i as int), key@),
        decreases i,
    {
        i -= 1;
        proof {
            lemma_last_value_take(pv, i as int, key@);
        }
        if same_text(ps[i].0.as_str(), key) {
            return Some(i);
        }
    }
    None
}

/// The text of the last entry with key `key`.
fn text_field(ps: &Vec<(String, String)>, key: &str) -> (r: Option<String>)
    ensures
        match r {
            Some(v) => last_value(pair_views(ps@), key@) == Some(v@),
            None => last_value(pair_views(ps@), key@) is None,
        },
{
    match find_last(ps, key) {
        Some(i) => Some(ps[i].1.clone()),
        None => None,
    }
}

/// The counter of the last entry with key `key`.
fn int_field(ps: &Vec<(String, String)>, key: &str) -> (r: Option<i64>)
    requires
        is_int_key(key@),
        !bad_integer(pair_views(ps@)),
    ensures
        r == int_value(pair_views(ps@), key@),
        r is Some <==> last_value(pair_views(ps@), key@) is Some,
{
    match find_last(ps, key) {
        Some(i) => {
            let ghost pv = pair_views(ps@);
            assert(pv[i as int] == (ps@[i as int].0@, ps@[i as int].1@));
            assert(i64_of(pv[i as int].1) is Some);
            match parse_i64(ps[i].1.as_str()) {
                Ok(n) => Some(n),
                Err(_) => None,
            }
        },
        None => None,
    }
}

/// Checks that every entry of a counter key holds an `i64`; the error of the
/// first one that does not.
pub fn check_integers(ps: &Vec<(String, String)>) -> (r: std::result::Result<
    (),
    std::num::ParseIntError,
>)
    ensures
        r is Ok <==> !bad_integer(pair_views(ps@)),
{
    let ghost pv = pair_views(ps@);
    let mut i: usize = 0;
    while i < ps.len()
        invariant
            pv == pair_views(ps@),
            i <= ps@.len(),
            forall|j: int| 0 <= j < i && is_int_key(pv[j].0) ==> (#[trigger] i64_of(pv[j].1)) is Some,
        decreases ps@.len() - i,
    {
        assert(pv[i as int] == (ps@[i as int].0@, ps@[i as int].1@));
        if int_key(ps[i].0.as_str()) {
            match parse_i64(ps[i].1.as_str()) {
                Ok(_) => {},
                Err(e) => {
                    assert(i64_of(pv[i as int].1) is None);
                    return Err(e);
                },
            }
        }
        i += 1;
    }
    Ok(())
}

/// The entries of unknown keys, each key once with its last value.
pub fn collect_extras(ps: &Vec<(String, String)>) -> (r: Vec<(String, String)>)
    ensures
        extras_match(r@, pair_views(ps@)),
{
    let ghost pv = pair_views(ps@);
    let mut ex: Vec<(String, String)> = Vec::new();
    let mut i: usize = 0;
    while i < ps.len()
        invariant
            pv == pair_views(ps@),
            i <= ps@.len(),
            extras_match(ex@, pv.take(i as int)),
        decreases ps@.len() - i,
    {
        let key = ps[i].0.as_str();
        let ghost before = pv.take(i as int);
        let ghost after = pv.take(i + 1);
        let ghost old_ex = ex@;
        assert(pv[i as int] == (ps@[i as int].0@, ps@[i as int].1@));
        assert forall|k: Seq<char>| k != key@ implies #[trigger] last_value(after, k) == last_value(
            before,
            k,
        ) by {
            lemma_last_value_take(pv, i as int, k);
        }
        proof {
            lemma_last_value_take(pv, i as int, key@);
        }
        if !known_key(key) {
            let mut j: usize = 0;
            while j < ex.len() && !same_text(ex[j].0.as_str(), key)
                invariant
                    j <= ex@.len(),
                    forall|m: int| 0 <= m < j ==> ex@[m].0@ != key@,
                decreases ex@.len() - j,
            {
                j += 1;
            }
            let entry = (ps[i].0.clone(), ps[i].1.clone());
            if j < ex.len() {
                ex.set(j, entry);
                assert forall|m: int| 0 <= m < old_ex.len() && m != j implies old_ex[m].0@ != key@ by {
                    assert(old_ex[j as int].0@ == key@);
                }
            } else {
                ex.push(entry);
            }
            assert forall|k: Seq<char>|
                !is_known_key(k) && (#[trigger] last_value(after, k)) is Some implies exists|m: int|
                    0 <= m < ex@.len() && (#[trigger] ex@[m]).0@ == k by {
                if k == key@ {
                    assert(ex@[j as int].0@ == k);
                } else {
                    assert(last_value(before, k) is Some);
                    let m = choose|m: int| 0 <= m < old_ex.len() && (#[trigger] old_ex[m]).0@ == k;
                    assert(ex@[m].0@ == k);
                }
            }
        } else {
            assert forall|k: Seq<char>|
                !is_known_key(k) && (#[trigger] last_value(after, k)) is Some implies exists|m: int|
                    0 <= m < ex@.len() && (#[trigger] ex@[m]).0@ == k by {
                assert(last_value(before, k) is Some);
            }
        }
        i += 1;
    }
    assert(pv.take(ps@.len() as int) =~= pv);
    ex
}

/// Decodes the entries of a reply into a `Response`.
pub fn parse_entries(ps: &Vec<(String, String)>) -> (r: Result<Response>)
    ensures
        mntr_result(pair_views(ps@), r),
{
    match check_integers(ps) {
        Ok(()) => {},
        Err(e) => return Err(Error::Parse(e)),
    }
    let zk_version = match text_field(ps, "zk_version") {
        Some(v) => v,
        None => return Err(Error::MissingField("zk_version")),
    };
    let zk_avg_latency = match int_field(ps, "zk_avg_latency") {
        Some(v) => v,
        None => return Err(Error::MissingField("zk_avg_latency")),
    };
    let zk_max_latency = match int_field(ps, "zk_max_latency") {
        Some(v) => v,
        None => return Err(Error::MissingField("zk_max_latency")),
    };
    let zk_min_latency = match int_field(ps, "zk_min_latency") {
        Some(v) => v,
        None => return Err(Error::MissingField("zk_min_latency")),
    };
    let zk_packets_received = match int_field(ps, "zk_packets_received") {
        Some(v) => v,
        None => return Err(Error::MissingField("zk_packets_received")),
    };
    let zk_packets_sent = match int_field(ps, "zk_packets_sent") {
        Some(v) => v,
        None => return Err(Error::MissingField("zk_packets_sent")),
    };
    let zk_outstanding_requests = match int_field(ps, "zk_outstanding_requests") {
        Some(v) => v,
        None => return Err(Error::MissingField("zk_outstanding_requests")),
    };
    let zk_server_state = match text_field(ps, "zk_server_state") {
        Some(v) => v,
        None => return Err(Error::MissingField("zk_server_state")),
    };
    let zk_znode_count = match int_field(ps, "zk_znode_count") {
        Some(v) => v,
        None => return Err(Error::MissingField("zk_znode_count")),
    };
    let zk_watch_count = match int_field(ps, "zk_watch_count") {
        Some(v) => v,
        None => return Err(Error::MissingField("zk_watch_count")),
    };
    let zk_ephemerals_count = match int_field(ps, "zk_ephemerals_count") {
        Some(v) => v,
        None => return Err(Error::MissingField("zk_ephemerals_count")),
    };
    let zk_approximate_data_size = match int_field(ps, "zk_approximate_data_size") {
        Some(v) => v,
        None => return Err(Error::MissingField("zk_approximate_data_size")),
    };
    let zk_followers = int_field(ps, "zk_followers");
    let zk_synced_followers = int_field(ps, "zk_synced_followers");
    let zk_pending_syncs = int_field(ps, "zk_pending_syncs");
    let zk_open_file_descriptor_count = int_field(ps, "zk_open_file_descriptor_count");
    let zk_max_file_descriptor_count = int_field(ps, "zk_max_file_descriptor_count");
    Ok(Response {
        zk_version,
        zk_avg_latency,
        zk_max_latency,
        zk_min_latency,
        zk_packets_received,
        zk_packets_sent,
        zk_outstanding_requests,
        zk_server_state,
        zk_znode_count,
        zk_watch_count,
        zk_ephemerals_count,
        zk_approximate_data_size,
        zk_followers,
        zk_synced_followers,
        zk_pending_syncs,
        zk_open_file_descriptor_count,
        zk_max_file_descriptor_count,
        zk_extras: collect_extras(ps),
    })
}

impl FourLetterWord for Mntr {
    type Response = Response;

    open spec fn command_text() -> Seq<char> {
        "mntr"@
    }

    open spec fn parsed(text: Seq<char>, r: Result<Response>) -> bool {
        mntr_result(entries(text), r)
    }

    fn command() -> (r: &'static str) {
        "mntr"
    }

    fn parse_response(response: &str) -> (r: Result<Response>) {
        parse_entries(&split_entries(response))
    }
}

/// Keys whose field every `Response` has.
pub open spec fn is_required_key(k: Seq<char>) -> bool {
    ||| k == "zk_version"@
    ||| k == "zk_avg_latency"@
    ||| k == "zk_max_latency"@
    ||| k == "zk_min_latency"@
    ||| k == "zk_packets_received"@
    ||| k == "zk_packets_sent"@
    ||| k == "zk_outstanding_requests"@
    ||| k == "zk_server_state"@
    ||| k == "zk_znode_count"@
    ||| k == "zk_watch_count"@
    ||| k == "zk_ephemerals_count"@
    ||| k == "zk_approximate_data_size"@
}

/// Some entry has key `k`.
pub open spec fn carries(ps: Seq<(Seq<char>, Seq<char>)>, k: Seq<char>) -> bool {
    exists|i: int| 0 <= i < ps.len() && (#[trigger] ps[i]).0 == k
}

/// The key/value pairs that `v` holds, as text.
pub open spec fn extras_set(v: Seq<(String, String)>) -> Set<(Seq<char>, Seq<char>)> {
    Set::new(|p: (Seq<char>, Seq<char>)| exists|j: int| 0 <= j < v.len() && (#[trigger] v[j]).0@ == p.0 && v[j].1@ == p.1)
}

/// Each unknown key of the entries `ps` with the value of its last entry.
pub open spec fn unknown_entries(ps: Seq<(Seq<char>, Seq<char>)>) -> Set<(Seq<char>, Seq<char>)> {
    Set::new(|p: (Seq<char>, Seq<char>)| !is_known_key(p.0) && last_value(ps, p.0) == Some(p.1))
}

impl Response {
    /// The counter field of key `k`, if it is a counter key and the field is
    /// present.
    pub open spec fn counter(&self, k: Seq<char>) -> Option<i64> {
        if k == "zk_avg_latency"@ {
            Some(self.zk_avg_latency)
        } else if k == "zk_max_latency"@ {
            Some(self.zk_max_latency)
        } else if k == "zk_min_latency"@ {
            Some(self.zk_min_latency)
        } else if k == "zk_packets_received"@ {
            Some(self.zk_packets_received)
        } else if k == "zk_packets_sent"@ {
            Some(self.zk_packets_sent)
        } else if k == "zk_outstanding_requests"@ {
            Some(self.zk_outstanding_requests)
        } else if k == "zk_znode_count"@ {
            Some(self.zk_znode_count)
        } else if k == "zk_watch_count"@ {
            Some(self.zk_watch_count)
        } else if k == "zk_ephemerals_count"@ {
            Some(self.zk_ephemerals_count)
        } else if k == "zk_approximate_data_size"@ {
            Some(self.zk_approximate_data_size)
        } else if k == "zk_followers"@ {
            self.zk_followers
        } else if k == "zk_synced_followers"@ {
            self.zk_synced_followers
        } else if k == "zk_pending_syncs"@ {
            self.zk_pending_syncs
        } else if k == "zk_open_file_descriptor_count"@ {
            self.zk_open_file_descriptor_count
        } else if k == "zk_max_file_descriptor_count"@ {
            self.zk_max_file_descriptor_count
        } else {
            None
        }
    }

    /// Every field equal, and the same extra pairs in whatever order.
    pub open spec fn same_as(&self, o: &Response) -> bool {
        &&& self.zk_version@ == o.zk_version@
        &&& self.zk_avg_latency == o.zk_avg_latency
        &&& self.zk_max_latency == o.zk_max_latency
        &&& self.zk_min_latency == o.zk_min_latency
        &&& self.zk_packets_received == o.zk_packets_received
        &&& self.zk_packets_sent == o.zk_packets_sent
        &&& self.zk_outstanding_requests == o.zk_outstanding_requests
        &&& self.zk_server_state@ == o.zk_server_state@
        &&& self.zk_znode_count == o.zk_znode_count
        &&& self.zk_watch_count == o.zk_watch_count
        &&& self.zk_ephemerals_count == o.zk_ephemerals_count
        &&& self.zk_approximate_data_size == o.zk_approximate_data_size
        &&& self.zk_followers == o.zk_followers
        &&& self.zk_synced_followers == o.zk_synced_followers
        &&& self.zk_pending_syncs == o.zk_pending_syncs
        &&& self.zk_open_file_descriptor_count == o.zk_open_file_descriptor_count
        &&& self.zk_max_file_descriptor_count == o.zk_max_file_descriptor_count
        &&& extras_set(self.zk_extras@) == extras_set(o.zk_extras@)
    }
}

proof fn lemma_last_value_none(ps: Seq<(Seq<char>, Seq<char>)>, k: Seq<char>)
    ensures
        last_value(ps, k) is None <==> !carries(ps, k),
    decreases ps.len(),
{
    if ps.len() > 0 {
        lemma_last_value_none(ps.drop_last(), k);
        if carries(ps.drop_last(), k) {
            let i = choose|i: int| 0 <= i < ps.len() - 1 && (#[trigger] ps.drop_last()[i]).0 == k;
            assert(ps[i].0 == k);
        }
        if ps.last().0 == k {
            assert(ps[ps.len() - 1].0 == k);
        }
        if carries(ps, k) && ps.last().0 != k {
            let i = choose|i: int| 0 <= i < ps.len() && (#[trigger] ps[i]).0 == k;
            assert(ps.drop_last()[i].0 == k);
        }
    }
}

proof fn lemma_last_value_at(ps: Seq<(Seq<char>, Seq<char>)>, k: Seq<char>, j: int)
    requires
        0 <= j < ps.len(),
        ps[j].0 == k,
        forall|m: int| j < m < ps.len() ==> ps[m].0 != k,
    ensures
        last_value(ps, k) == Some(ps[j].1),
    decreases ps.len(),
{
    if j < ps.len() - 1 {
        assert(ps.last() == ps[ps.len() - 1]);
        lemma_last_value_at(ps.drop_last(), k, j);
    }
}

proof fn lemma_extras_set(v: Seq<(String, String)>, ps: Seq<(Seq<char>, Seq<char>)>)
    requires
        extras_match(v, ps),
    ensures
        extras_set(v) == unknown_entries(ps),
{
    assert forall|p: (Seq<char>, Seq<char>)| #[trigger] unknown_entries(ps).contains(p) implies extras_set(v).contains(p) by {
        let j = choose|j: int| 0 <= j < v.len() && (#[trigger] v[j]).0@ == p.0;
        assert(last_value(ps, v[j].0@) == Some(v[j].1@));
    }
    assert forall|p: (Seq<char>, Seq<char>)| #[trigger] extras_set(v).contains(p) implies unknown_entries(ps).contains(p) by {
        let j = choose|j: int| 0 <= j < v.len() && (#[trigger] v[j]).0@ == p.0 && v[j].1@ == p.1;
        assert(!is_known_key(v[j].0@));
    }
    assert(extras_set(v) =~= unknown_entries(ps));
}

/// A counter whose text is not a decimal `i64` makes the reply fail with
/// `Error::Parse`: no partial response comes back.
pub proof fn law_bad_counter_fails(text: Seq<char>, r: Result<Response>, i: int)
    requires
        <Mntr as FourLetterWord>::parsed(text, r),
        0 <= i < entries(text).len(),
        is_int_key(entries(text)[i].0),
        i64_of(entries(text)[i].1) is None,
    ensures
        match r {
            Err(Error::Parse(_)) => true,
            _ => false,
        },
{
    assert(bad_integer(entries(text)));
}

/// A reply whose lines, before any line without a tab, carry every required
/// key, each counter as a decimal `i64`, decodes; its extras are exactly the
/// unknown keys, each with the text of its last line.
pub proof fn law_complete_reply_parses(text: Seq<char>, r: Result<Response>)
    requires
        <Mntr as FourLetterWord>::parsed(text, r),
        forall|k: Seq<char>| is_required_key(k) ==> carries(entries(text), k),
        !bad_integer(entries(text)),
    ensures
        r is Ok,
        extras_set(r->Ok_0.zk_extras@) == unknown_entries(entries(text)),
{
    let ps = entries(text);
    assert forall|k: Seq<char>| is_required_key(k) implies #[trigger] last_value(ps, k) is Some by {
        lemma_last_value_none(ps, k);
    }
    lemma_extras_set(r->Ok_0.zk_extras@, ps);
}

/// A reply that lacks a required key fails with `Error::MissingField`, naming
/// the first required key, in the order of the fields of `Response`, that no
/// line carries (unless a counter's text fails first).
pub proof fn law_missing_field(text: Seq<char>, r: Result<Response>, k: Seq<char>)
    requires
        <Mntr as FourLetterWord>::parsed(text, r),
        !bad_integer(entries(text)),
        is_required_key(k),
        !carries(entries(text), k),
    ensures
        match r {
            Err(Error::MissingField(name)) => {
                &&& first_missing(entries(text)) == Some(name@)
                &&& is_required_key(name@)
                &&& !carries(entries(text), name@)
            },
            _ => false,
        },
{
    let ps = entries(text);
    lemma_last_value_none(ps, k);
    let name = first_missing(ps)->0;
    lemma_last_value_none(ps, name);
}

/// Decoding one text twice gives the same outcome, and equal responses.
pub proof fn law_parse_deterministic(text: Seq<char>, r1: Result<Response>, r2: Result<Response>)
    requires
        <Mntr as FourLetterWord>::parsed(text, r1),
        <Mntr as FourLetterWord>::parsed(text, r2),
    ensures
        r1 is Ok <==> r2 is Ok,
        r1 is Ok ==> r1->Ok_0.same_as(&r2->Ok_0),
{
    if r1 is Ok && r2 is Ok {
        lemma_extras_set(r1->Ok_0.zk_extras@, entries(text));
        lemma_extras_set(r2->Ok_0.zk_extras@, entries(text));
    }
}

/// When a known key appears on several lines, the last of them gives the
/// field its value.
pub proof fn law_later_entry_wins(text: Seq<char>, resp: Response, j: int)
    requires
        <Mntr as FourLetterWord>::parsed(text, Ok(resp)),
        0 <= j < entries(text).len(),
        is_known_key(entries(text)[j].0),
        forall|m: int| j < m < entries(text).len() ==> entries(text)[m].0 != entries(text)[j].0,
    ensures
        entries(text)[j].0 == "zk_version"@ ==> resp.zk_version@ == entries(text)[j].1,
        entries(text)[j].0 == "zk_server_state"@ ==> resp.zk_server_state@ == entries(text)[j].1,
        is_int_key(entries(text)[j].0) ==> resp.counter(entries(text)[j].0) == i64_of(entries(text)[j].1),
{
    lemma_last_value_at(entries(text), entries(text)[j].0, j);
}

} // verus!
