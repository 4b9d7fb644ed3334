//! The stored text of a device record sequence: one line per record,
//! holding the name and the canonical address text, separated by one
//! space. Decoding rejects anything else, so the file is always either a
//! well-formed record list or refused whole.

use vstd::prelude::*;
use crate::device::{seq_models, valid_name, Device, DeviceName, DeviceRecord, MacAddress};
use crate::mac::{lemma_mac_display_chars, lemma_mac_display_parses, mac_display, mac_parse_result};

verus! {

/// The first position of `c` in `s`, or -1 when it does not occur.
pub open spec fn find_char(s: Seq<char>, c: char) -> int
    decreases s.len(),
{
    if s.len() == 0 {
        -1
    } else if s[0] == c {
        0
    } else {
        let r = find_char(s.drop_first(), c);
        if r == -1 {
            -1
        } else {
            r + 1
        }
    }
}

/// `find_char` returns the position of the first occurrence.
pub proof fn lemma_find_char_at(s: Seq<char>, c: char, i: int)
    requires
        0 <= i < s.len(),
        s[i] == c,
        forall|j: int| 0 <= j < i ==> s[j] != c,
    ensures
        find_char(s, c) == i,
    decreases s.len(),
{
    if s[0] == c {
        assert(i == 0);
    } else {
        let t = s.drop_first();
        assert(t[i - 1] == c);
        assert forall|j: int| 0 <= j < i - 1 implies t[j] != c by {
            assert(t[j] == s[j + 1]);
        }
        lemma_find_char_at(t, c, i - 1);
    }
}

/// `find_char` returns -1 exactly when the character does not occur.
pub proof fn lemma_find_char_none(s: Seq<char>, c: char)
    requires
        forall|j: int| 0 <= j < s.len() ==> s[j] != c,
    ensures
        find_char(s, c) == -1,
    decreases s.len(),
{
    if s.len() > 0 {
        let t = s.drop_first();
        assert forall|j: int| 0 <= j < t.len() implies t[j] != c by {
            assert(t[j] == s[j + 1]);
        }
        lemma_find_char_none(t, c);
    }
}

/// One stored line, without its line break: the record it stands for, or
/// nothing when the line is not `name<space>address`.
pub open spec fn decode_line(line: Seq<char>) -> Option<DeviceRecord> {
    let t = find_char(line, ' ');
    if 0 <= t < line.len() {
        let name = line.subrange(0, t);
        let mactext = line.subrange(t + 1, line.len() as int);
        match mac_parse_result(mactext) {
            Ok(bytes) => if valid_name(name) {
                Some(DeviceRecord { name, mac: bytes })
            } else {
                None
            },
            Err(_) => None,
        }
    } else {
        None
    }
}

/// The record sequence that a stored text stands for, or nothing when any
/// part of it is malformed. Every line ends with a line break.
pub open spec fn decode_records(s: Seq<char>) -> Option<Seq<DeviceRecord>>
    decreases s.len(),
{
    if s.len() == 0 {
        Some(Seq::empty())
    } else {
        let i = find_char(s, '\n');
        if 0 <= i < s.len() {
            let line = s.subrange(0, i);
            let rest = s.subrange(i + 1, s.len() as int);
            match (decode_line(line), decode_records(rest)) {
                (Some(r), Some(rs)) => Some(seq![r] + rs),
                _ => None,
            }
        } else {
            None
        }
    }
}

/// The stored line of one record, with its line break.
pub open spec fn encode_record(r: DeviceRecord) -> Seq<char> {
    r.name + seq![' '] + mac_display(r.mac) + seq!['\n']
}

/// The stored text of a record sequence.
pub open spec fn encode_records(rs: Seq<DeviceRecord>) -> Seq<char>
    decreases rs.len(),
{
    if rs.len() == 0 {
        Seq::empty()
    } else {
        encode_record(rs[0]) + encode_records(rs.drop_first())
    }
}

/// A record that the encoder accepts: a valid name and six address
/// octets.
pub open spec fn encodable(r: DeviceRecord) -> bool {
    valid_name(r.name) && r.mac.len() == 6
}

/// Decoding one encoded line gives back exactly its record.
proof fn lemma_decode_line_of_encoded(r: DeviceRecord)
    requires
        encodable(r),
    ensures
        decode_line(r.name + seq![' '] + mac_display(r.mac)) == Some(r),
{
    let line = r.name + seq![' '] + mac_display(r.mac);
    let n = r.name.len() as int;
    lemma_mac_display_chars(r.mac);
    assert(line[n] == ' ');
    assert forall|j: int| 0 <= j < n implies line[j] != ' ' by {
        assert(line[j] == r.name[j]);
    }
    lemma_find_char_at(line, ' ', n);
    assert(line.subrange(0, n) =~= r.name);
    assert(line.subrange(n + 1, line.len() as int) =~= mac_display(r.mac));
    lemma_mac_display_parses(r.mac);
}

/// Decoding is the inverse of encoding: a stored record sequence is read
/// back exactly, whatever it held.
pub proof fn lemma_decode_encode(rs: Seq<DeviceRecord>)
    requires
        forall|k: int| 0 <= k < rs.len() ==> encodable(#[trigger] rs[k]),
    ensures
        decode_records(encode_records(rs)) == Some(rs),
    decreases rs.len(),
{
    if rs.len() == 0 {
    } else {
        let r0 = rs[0];
        let line = r0.name + seq![' '] + mac_display(r0.mac);
        let rest_enc = encode_records(rs.drop_first());
        let enc = encode_records(rs);
        assert(enc =~= line + seq!['\n'] + rest_enc);
        let n = line.len() as int;
        lemma_mac_display_chars(r0.mac);
        assert(enc[n] == '\n');
        assert forall|j: int| 0 <= j < n implies enc[j] != '\n' by {
            assert(enc[j] == line[j]);
            if j < r0.name.len() {
                assert(line[j] == r0.name[j]);
            } else if j == r0.name.len() {
                assert(line[j] == ' ');
            } else {
                assert(line[j] == mac_display(r0.mac)[j - r0.name.len() - 1]);
            }
        }
        lemma_find_char_at(enc, '\n', n);
        assert(enc.subrange(0, n) =~= line);
        assert(enc.subrange(n + 1, enc.len() as int) =~= rest_enc);
        lemma_decode_line_of_encoded(r0);
        lemma_decode_encode(rs.drop_first());
        assert(seq![r0] + rs.drop_first() =~= rs);
    }
}

/// Whatever decodes was encodable: every name valid, every address six
/// octets.
pub proof fn lemma_decode_encodable(s: Seq<char>, rs: Seq<DeviceRecord>)
    requires
        decode_records(s) == Some(rs),
    ensures
        forall|k: int| 0 <= k < rs.len() ==> encodable(#[trigger] rs[k]),
    decreases s.len(),
{
    if s.len() == 0 {
    } else {
        let i = find_char(s, '\n');
        let line = s.subrange(0, i);
        let rest = s.subrange(i + 1, s.len() as int);
        match (decode_line(line), decode_records(rest)) {
            (Some(r0), Some(rs0)) => {
                lemma_decode_encodable(rest, rs0);
                assert(rs == seq![r0] + rs0);
                assert(encodable(r0));
                assert forall|k: int| 0 <= k < rs.len() implies encodable(#[trigger] rs[k]) by {
                    if k > 0 {
                        assert(rs[k] == rs0[k - 1]);
                    }
                }
            },
            _ => {
                assert(false);
            },
        }
    }
}

/// Writes the stored text of the devices from position `i` on.
fn encode_from(devices: &Vec<Device>, i: usize) -> (r: String)
    requires
        i <= devices.len(),
    ensures
        r@ == encode_records(seq_models(devices@).skip(i as int)),
    decreases devices.len() - i,
{
    let ms = Ghost(seq_models(devices@));
    if i == devices.len() {
        let r = String::new();
        proof {
            assert(ms@.skip(i as int) =~= Seq::empty());
        }
        r
    } else {
        let mut line = devices[i].name.to_string();
        line.append(" ");
        let mactext = devices[i].mac.to_string();
        line.append(mactext.as_str());
        line.append("\n");
        let rest = encode_from(devices, i + 1);
        line.append(rest.as_str());
        proof {
            reveal_strlit(" ");
            reveal_strlit("\n");
            let tail = ms@.skip(i as int);
            assert(tail[0] == ms@[i as int]);
            assert(tail.drop_first() =~= ms@.skip(i as int + 1));
            assert(line@ =~= encode_record(tail[0]) + encode_records(tail.drop_first()));
        }
        line
    }
}

/// The stored text of a device sequence.
pub fn encode_devices(devices: &Vec<Device>) -> (r: String)
    ensures
        r@ == encode_records(seq_models(devices@)),
{
    let r = encode_from(devices, 0);
    proof {
        assert(seq_models(devices@).skip(0) =~= seq_models(devices@));
    }
    r
}

/// Reads the device sequence that a stored text stands for, or nothing
/// when the text is malformed.
pub fn decode_devices(content: &str) -> (r: Option<Vec<Device>>)
    ensures
        match r {
            Some(v) => decode_records(content@) == Some(seq_models(v@)),
            None => decode_records(content@) is None,
        },
    decreases content@.len(),
{
    let n = content.unicode_len();
    if n == 0 {
        let v = Vec::new();
        proof {
            assert(seq_models(v@) =~= Seq::empty());
        }
        return Some(v);
    }
    let mut i: usize = 0;
    while i < n && content.get_char(i) != '\n'
        invariant
            n == content@.len(),
            i <= n,
            forall|j: int| 0 <= j < i ==> content@[j] != '\n',
        decreases n - i,
    {
        i += 1;
    }
    if i == n {
        proof {
            lemma_find_char_none(content@, '\n');
        }
        return None;
    }
    let ghost line = content@.subrange(0, i as int);
    proof {
        lemma_find_char_at(content@, '\n', i as int);
    }
    let mut t: usize = 0;
    while t < i && content.get_char(t) != ' '
        invariant
            n == content@.len(),
            i < n,
            t <= i,
            forall|j: int| 0 <= j < t ==> content@[j] != ' ',
        decreases i - t,
    {
        t += 1;
    }
    proof {
        assert forall|j: int| 0 <= j < t implies line[j] != ' ' by {
            assert(line[j] == content@[j]);
        }
    }
    if t == i {
        proof {
            lemma_find_char_none(line, ' ');
        }
        return None;
    }
    proof {
        assert(line[t as int] == content@[t as int]);
        lemma_find_char_at(line, ' ', t as int);
    }
    let name_text = content.substring_char(0, t);
    let mac_text = content.substring_char(t + 1, i);
    proof {
        assert(name_text@ =~= line.subrange(0, t as int));
        assert(mac_text@ =~= line.subrange(t as int + 1, line.len() as int));
    }
    let name = match DeviceName::try_from(name_text) {
        Ok(d) => d,
        Err(_) => {
            return None;
        },
    };
    let mac = match MacAddress::try_from(mac_text) {
        Ok(m) => m,
        Err(_) => {
            return None;
        },
    };
    let rest = content.substring_char(i + 1, n);
    proof {
        assert(rest@ =~= content@.subrange(i as int + 1, n as int));
    }
    match decode_devices(rest) {
        Some(mut v) => {
            let d = Device { name, mac };
            let ghost tail_models = seq_models(v@);
            v.insert(0, d);
            proof {
                assert(seq_models(v@) =~= seq![d@] + tail_models);
            }
            Some(v)
        },
        None => None,
    }
}

} // verus!
