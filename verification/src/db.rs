//! The read-only user database: which device belongs to which chat
//! user. It is loaded whole at start-up and never written back.

use vstd::prelude::*;
use std::sync::Arc;
use crate::codec::{find_char, lemma_find_char_at, lemma_find_char_none};
use crate::mac::{mac_parse_result, MacAddress};

verus! {

/// The chat identity a device belongs to.
pub type SlackUserId = String;

/// The model of the device half of one database entry.
pub ghost struct DbDeviceRecord {
    pub mac: Seq<u8>,
    pub tcp_check_addr: Option<Seq<char>>,
}

/// The model of one database entry.
pub ghost struct DbEntry {
    pub user: Seq<char>,
    pub device: DbDeviceRecord,
}

/// One device of the user database: its hardware address, and the
/// optional host-and-port text to poll after a wake.
#[derive(Debug)]
pub struct Device {
    pub mac: MacAddress,
    pub tcp_check_addr: Option<String>,
}

impl View for Device {
    type V = DbDeviceRecord;

    open spec fn view(&self) -> DbDeviceRecord {
        DbDeviceRecord {
            mac: self.mac@,
            tcp_check_addr: match self.tcp_check_addr {
                Some(a) => Some(a@),
                None => None,
            },
        }
    }
}

/// The entry that one stored pair stands for.
pub open spec fn entry_model(p: (SlackUserId, Device)) -> DbEntry {
    DbEntry { user: p.0@, device: p.1@ }
}

/// The entries that a stored pair sequence stands for.
pub open spec fn db_models(s: Seq<(SlackUserId, Device)>) -> Seq<DbEntry> {
    s.map_values(|p: (SlackUserId, Device)| entry_model(p))
}

/// One database line, without its line break: `user address` or
/// `user address checkaddr`, single spaces between the parts.
pub open spec fn decode_db_line(line: Seq<char>) -> Option<DbEntry> {
    let t = find_char(line, ' ');
    if 0 <= t < line.len() {
        let user = line.subrange(0, t);
        let rest = line.subrange(t + 1, line.len() as int);
        let u = find_char(rest, ' ');
        if u == -1 {
            match mac_parse_result(rest) {
                Ok(b) => Some(
                    DbEntry { user, device: DbDeviceRecord { mac: b, tcp_check_addr: None } },
                ),
                Err(_) => None,
            }
        } else {
            let mactext = rest.subrange(0, u);
            let addr = rest.subrange(u + 1, rest.len() as int);
            if addr.len() > 0 && find_char(addr, ' ') == -1 {
                match mac_parse_result(mactext) {
                    Ok(b) => Some(
                        DbEntry {
                            user,
                            device: DbDeviceRecord { mac: b, tcp_check_addr: Some(addr) },
                        },
                    ),
                    Err(_) => None,
                }
            } else {
                None
            }
        }
    } else {
        None
    }
}

/// The entry sequence that a stored database text stands for, or
/// nothing when any line is malformed. Every line ends with a line
/// break.
pub open spec fn decode_db(s: Seq<char>) -> Option<Seq<DbEntry>>
    decreases s.len(),
{
    if s.len() == 0 {
        Some(Seq::empty())
    } else {
        let i = find_char(s, '\n');
        if 0 <= i < s.len() {
            let line = s.subrange(0, i);
            let rest = s.subrange(i + 1, s.len() as int);
            match (decode_db_line(line), decode_db(rest)) {
                (Some(e), Some(es)) => Some(seq![e] + es),
                _ => None,
            }
        } else {
            None
        }
    }
}

/// Whether no two entries name the same user.
pub open spec fn unique_users(es: Seq<DbEntry>) -> bool {
    forall|i: int, j: int| 0 <= i < j < es.len() ==> (#[trigger] es[i].user) != (#[trigger] es[j].user)
}

/// The first entry of this user.
pub open spec fn find_user(es: Seq<DbEntry>, user: Seq<char>) -> Option<DbEntry>
    decreases es.len(),
{
    if es.len() == 0 {
        None
    } else if es[0].user == user {
        Some(es[0])
    } else {
        find_user(es.drop_first(), user)
    }
}

/// `find_user` finds the entry at the first position naming the user.
proof fn lemma_find_user_at(es: Seq<DbEntry>, user: Seq<char>, k: int)
    requires
        0 <= k < es.len(),
        es[k].user == user,
        forall|j: int| 0 <= j < k ==> (#[trigger] es[j].user) != user,
    ensures
        find_user(es, user) == Some(es[k]),
    decreases es.len(),
{
    if k > 0 {
        let t = es.drop_first();
        assert(t[k - 1] == es[k]);
        assert forall|j: int| 0 <= j < k - 1 implies (#[trigger] t[j].user) != user by {
            assert(t[j] == es[j + 1]);
        }
        lemma_find_user_at(t, user, k - 1);
    }
}

/// `find_user` finds nothing when no entry names the user.
proof fn lemma_find_user_none(es: Seq<DbEntry>, user: Seq<char>)
    requires
        forall|j: int| 0 <= j < es.len() ==> (#[trigger] es[j].user) != user,
    ensures
        find_user(es, user) is None,
    decreases es.len(),
{
    if es.len() > 0 {
        let t = es.drop_first();
        assert forall|j: int| 0 <= j < t.len() implies (#[trigger] t[j].user) != user by {
            assert(t[j] == es[j + 1]);
        }
        lemma_find_user_none(t, user);
    }
}

/// Why the user database could not be opened.
#[derive(Debug, PartialEq, Eq, Structural, Clone, Copy)]
pub enum DbError {
    /// The backing file could not be read.
    IoError,
    /// The content is not a well-formed user database.
    DeserializeError,
}

/// The user database: entries loaded once, looked up by chat user.
pub struct Db {
    devices_by_user: Vec<(SlackUserId, Device)>,
}

/// A shared handle on the user database.
pub type SharedDb = Arc<Db>;

impl Db {
    /// The entries held, in stored order.
    pub closed spec fn entries(&self) -> Seq<DbEntry> {
        db_models(self.devices_by_user@)
    }

    /// Reads one entry of the stored text: the line from `from` up to
    /// the line break at `upto`.
    fn parse_entry(content: &str, from: usize, upto: usize) -> (r: Option<(SlackUserId, Device)>)
        requires
            from <= upto <= content@.len(),
        ensures
            match r {
                Some(p) => decode_db_line(content@.subrange(from as int, upto as int)) == Some(
                    entry_model(p),
                ),
                None => decode_db_line(content@.subrange(from as int, upto as int)) is None,
            },
    {
        let ghost line = content@.subrange(from as int, upto as int);
        let mut t: usize = from;
        while t < upto && content.get_char(t) != ' '
            invariant
                from <= t <= upto <= content@.len(),
                line == content@.subrange(from as int, upto as int),
                forall|j: int| from <= j < t ==> content@[j] != ' ',
            decreases upto - t,
        {
            t += 1;
        }
        proof {
            assert forall|j: int| 0 <= j < t - from implies line[j] != ' ' by {
                assert(line[j] == content@[from + j]);
            }
        }
        if t == upto {
            proof {
                lemma_find_char_none(line, ' ');
            }
            return None;
        }
        proof {
            assert(line[t - from as int] == content@[t as int]);
            lemma_find_char_at(line, ' ', t - from as int);
        }
        let user_text = content.substring_char(from, t);
        let ghost rest = line.subrange(t - from as int + 1, line.len() as int);
        let mut u: usize = t + 1;
        while u < upto && content.get_char(u) != ' '
            invariant
                from <= t < u <= upto <= content@.len(),
                rest == line.subrange(t - from as int + 1, line.len() as int),
                line == content@.subrange(from as int, upto as int),
                forall|j: int| t < j < u ==> content@[j] != ' ',
            decreases upto - u,
        {
            u += 1;
        }
        proof {
            assert forall|j: int| 0 <= j < u - t - 1 implies rest[j] != ' ' by {
                assert(rest[j] == content@[t + 1 + j]);
            }
        }
        if u == upto {
            // the line holds a user and an address text, nothing more
            proof {
                lemma_find_char_none(rest, ' ');
            }
            let mac_text = content.substring_char(t + 1, upto);
            proof {
                assert(mac_text@ =~= rest);
            }
            match MacAddress::try_from(mac_text) {
                Ok(mac) => {
                    let p = (user_text.to_owned(), Device { mac, tcp_check_addr: None });
                    proof {
                        assert(user_text@ =~= line.subrange(0, t - from as int));
                    }
                    Some(p)
                },
                Err(_) => None,
            }
        } else {
            // the line also holds a check address after a second space
            proof {
                assert(rest[u - t - 1 as int] == content@[u as int]);
                lemma_find_char_at(rest, ' ', u - t - 1 as int);
            }
            let mac_text = content.substring_char(t + 1, u);
            let addr_text = content.substring_char(u + 1, upto);
            let ghost addr = rest.subrange(u - t as int, rest.len() as int);
            proof {
                assert(mac_text@ =~= rest.subrange(0, u - t - 1 as int));
                assert(addr_text@ =~= addr);
            }
            if addr_text.unicode_len() == 0 {
                return None;
            }
            let mut w: usize = u + 1;
            while w < upto && content.get_char(w) != ' '
                invariant
                    from <= t < u < w <= upto <= content@.len(),
                    addr == content@.subrange(u as int + 1, upto as int),
                    forall|j: int| u < j < w ==> content@[j] != ' ',
                decreases upto - w,
            {
                w += 1;
            }
            if w < upto {
                proof {
                    assert forall|j: int| 0 <= j < w - u - 1 implies addr[j] != ' ' by {
                        assert(addr[j] == content@[u + 1 + j]);
                    }
                    assert(addr[w - u - 1 as int] == content@[w as int]);
                    lemma_find_char_at(addr, ' ', w - u - 1 as int);
                }
                return None;
            }
            proof {
                assert forall|j: int| 0 <= j < addr.len() implies addr[j] != ' ' by {
                    assert(addr[j] == content@[u + 1 + j]);
                }
                lemma_find_char_none(addr, ' ');
            }
            match MacAddress::try_from(mac_text) {
                Ok(mac) => {
                    let p = (
                        user_text.to_owned(),
                        Device { mac, tcp_check_addr: Some(addr_text.to_owned()) },
                    );
                    proof {
                        assert(user_text@ =~= line.subrange(0, t - from as int));
                    }
                    Some(p)
                },
                Err(_) => None,
            }
        }
    }

    /// Reads the entries of the stored text from position `from` on.
    fn parse_entries(content: &str, from: usize) -> (r: Option<Vec<(SlackUserId, Device)>>)
        requires
            from <= content@.len(),
        ensures
            match r {
                Some(v) => decode_db(content@.subrange(from as int, content@.len() as int))
                    == Some(db_models(v@)),
                None => decode_db(content@.subrange(from as int, content@.len() as int)) is None,
            },
        decreases content@.len() - from,
    {
        let n = content.unicode_len();
        let ghost tail = content@.subrange(from as int, n as int);
        if from == n {
            let v: Vec<(SlackUserId, Device)> = Vec::new();
            proof {
                assert(db_models(v@) =~= Seq::<DbEntry>::empty());
            }
            return Some(v);
        }
        let mut i: usize = from;
        while i < n && content.get_char(i) != '\n'
            invariant
                from <= i <= n,
                n == content@.len(),
                tail == content@.subrange(from as int, n as int),
                forall|j: int| from <= j < i ==> content@[j] != '\n',
            decreases n - i,
        {
            i += 1;
        }
        proof {
            assert forall|j: int| 0 <= j < i - from implies tail[j] != '\n' by {
                assert(tail[j] == content@[from + j]);
            }
        }
        if i == n {
            proof {
                lemma_find_char_none(tail, '\n');
            }
            return None;
        }
        proof {
            assert(tail[i - from as int] == content@[i as int]);
            lemma_find_char_at(tail, '\n', i - from as int);
            assert(tail.subrange(0, i - from as int) =~= content@.subrange(from as int, i as int));
            assert(tail.subrange(i - from as int + 1, tail.len() as int) =~= content@.subrange(
                i as int + 1,
                n as int,
            ));
        }
        let entry = match Self::parse_entry(content, from, i) {
            Some(p) => p,
            None => {
                return None;
            },
        };
        match Self::parse_entries(content, i + 1) {
            Some(mut v) => {
                let ghost tail_models = db_models(v@);
                let ghost em = entry_model(entry);
                v.insert(0, entry);
                proof {
                    assert(db_models(v@) =~= seq![em] + tail_models);
                }
                Some(v)
            },
            None => None,
        }
    }

    /// Whether no two entries name the same user.
    fn users_unique(v: &Vec<(SlackUserId, Device)>) -> (r: bool)
        ensures
            r == unique_users(db_models(v@)),
    {
        let ghost ms = db_models(v@);
        let mut i: usize = 0;
        while i < v.len()
            invariant
                ms == db_models(v@),
                i <= v.len(),
                forall|a: int, b: int| 0 <= a < b < v.len() && a < i ==> (#[trigger] ms[a].user)
                    != (#[trigger] ms[b].user),
            decreases v.len() - i,
        {
            let mut j: usize = i + 1;
            while j < v.len()
                invariant
                    ms == db_models(v@),
                    i < v.len(),
                    i < j,
                    j <= v.len(),
                    forall|b: int| i < b < j ==> (#[trigger] ms[b].user) != ms[i as int].user,
                decreases v.len() - j,
            {
                if v[i].0 == v[j].0 {
                    proof {
                        assert(ms[i as int] == entry_model(v@[i as int]));
                        assert(ms[j as int] == entry_model(v@[j as int]));
                        assert(ms[i as int].user == ms[j as int].user);
                    }
                    return false;
                }
                j += 1;
            }
            i += 1;
        }
        true
    }

    /// Builds the database from the stored text: the full entry list is
    /// loaded up front, and content that is not an entry list with
    /// unique users is refused whole.
    pub fn try_new(content: &str) -> (r: Result<Db, DbError>)
        ensures
            match r {
                Ok(db) => decode_db(content@) == Some(db.entries()) && unique_users(db.entries()),
                Err(DbError::DeserializeError) => match decode_db(content@) {
                    Some(es) => !unique_users(es),
                    None => true,
                },
                Err(DbError::IoError) => false,
            },
    {
        proof {
            assert(content@.subrange(0, content@.len() as int) =~= content@);
        }
        let devices_by_user = match Self::parse_entries(content, 0) {
            Some(v) => v,
            None => {
                return Err(DbError::DeserializeError);
            },
        };
        if !Self::users_unique(&devices_by_user) {
            return Err(DbError::DeserializeError);
        }
        Ok(Db { devices_by_user })
    }

    /// A shared handle on the database.
    pub fn try_new_shared(content: &str) -> (r: Result<SharedDb, DbError>)
        ensures
            match r {
                Ok(db) => decode_db(content@) == Some(db.entries()) && unique_users(db.entries()),
                Err(DbError::DeserializeError) => match decode_db(content@) {
                    Some(es) => !unique_users(es),
                    None => true,
                },
                Err(DbError::IoError) => false,
            },
    {
        match Self::try_new(content) {
            Ok(db) => Ok(Arc::new(db)),
            Err(e) => Err(e),
        }
    }

    /// The device of this chat user, if one is listed.
    pub fn get_device_by_slack_user_id(&self, slack_user_id: &SlackUserId) -> (r: Option<&Device>)
        ensures
            match r {
                Some(d) => find_user(self.entries(), slack_user_id@) matches Some(e) && e.device
                    == d@,
                None => find_user(self.entries(), slack_user_id@) is None,
            },
    {
        let ghost ms = self.entries();
        let mut k: usize = 0;
        while k < self.devices_by_user.len()
            invariant
                ms == self.entries(),
                k <= self.devices_by_user.len(),
                forall|j: int| 0 <= j < k ==> (#[trigger] ms[j].user) != slack_user_id@,
            decreases self.devices_by_user.len() - k,
        {
            if self.devices_by_user[k].0 == *slack_user_id {
                proof {
                    assert(ms[k as int] == entry_model(self.devices_by_user@[k as int]));
                    lemma_find_user_at(ms, slack_user_id@, k as int);
                }
                return Some(&self.devices_by_user[k].1);
            }
            proof {
                assert(ms[k as int] == entry_model(self.devices_by_user@[k as int]));
            }
            k += 1;
        }
        proof {
            lemma_find_user_none(ms, slack_user_id@);
        }
        None
    }
}

} // verus!
