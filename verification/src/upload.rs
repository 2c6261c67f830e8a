//! Choosing the screenshots to upload: their names, the hashes of their
//! content, and which of them the service lacks.

use vstd::prelude::*;

use crate::external::{
    encode_hex, file_stem, hex_digit_char, hex_digits, lower_hex, path_file_stem, sha256, sha256_of,
    text_option,
};
use crate::string_map::{pairs_map, StringMap};
use crate::text::text_eq;
use crate::types::{screenshot_names, Screenshot};

verus! {

/// The name a screenshot is uploaded under: the name given, else with
/// `clean_name` the file stem of its path (or the path where it has none),
/// else its path.
pub open spec fn screenshot_name_spec(path: Seq<char>, name: Option<Seq<char>>, clean_name: bool) -> Seq<char> {
    match name {
        Some(n) => n,
        None => if clean_name {
            match path_file_stem(path) {
                Some(s) => s,
                None => path,
            }
        } else {
            path
        },
    }
}

/// The name a screenshot is uploaded under.
pub fn screenshot_name(path: &str, name: Option<String>, clean_name: bool) -> (r: String)
    ensures
        r@ == screenshot_name_spec(path@, text_option(name), clean_name),
{
    match name {
        Some(n) => n,
        None => if clean_name {
            match file_stem(path) {
                Some(s) => s,
                None => path.to_owned(),
            }
        } else {
            path.to_owned()
        },
    }
}

/// The text that identifies a screenshot's content: the SHA-256 digest of
/// the bytes, in lowercase hexadecimal.
pub open spec fn content_hash_spec(data: Seq<u8>) -> Seq<char> {
    lower_hex(sha256_of(data))
}

/// Whether `c` is a lowercase hexadecimal digit.
pub open spec fn is_lower_hex_digit(c: char) -> bool {
    ('0' <= c && c <= '9') || ('a' <= c && c <= 'f')
}

/// A text of 64 lowercase hexadecimal digits, the form of a content hash.
pub open spec fn hash_shaped(h: Seq<char>) -> bool {
    &&& h.len() == 64
    &&& forall|i: int| 0 <= i < h.len() ==> #[trigger] is_lower_hex_digit(h[i])
}

/// Every hexadecimal digit character is a lowercase hexadecimal digit.
proof fn lemma_hex_digit_char(d: int)
    ensures
        is_lower_hex_digit(hex_digit_char(d)),
{
}

/// `n` hexadecimal digits make a text of `n` lowercase hexadecimal digits.
proof fn lemma_hex_digits(v: nat, n: nat)
    ensures
        hex_digits(v, n).len() == n,
        forall|i: int| 0 <= i < n ==> #[trigger] is_lower_hex_digit(hex_digits(v, n)[i]),
    decreases n,
{
    if n > 0 {
        lemma_hex_digits(v / 16, (n - 1) as nat);
        lemma_hex_digit_char((v % 16) as int);
        let t = hex_digits(v, n);
        assert forall|i: int| 0 <= i < n implies #[trigger] is_lower_hex_digit(t[i]) by {
            if i < n - 1 {
                assert(t[i] == hex_digits(v / 16, (n - 1) as nat)[i]);
            }
        }
    }
}

/// The hexadecimal text of bytes holds two lowercase hexadecimal digits for
/// each byte.
proof fn lemma_lower_hex(bytes: Seq<u8>)
    ensures
        lower_hex(bytes).len() == 2 * bytes.len(),
        forall|i: int| 0 <= i < lower_hex(bytes).len() ==> #[trigger] is_lower_hex_digit(lower_hex(bytes)[i]),
    decreases bytes.len(),
{
    if bytes.len() > 0 {
        let a = lower_hex(bytes.drop_last());
        let b = hex_digits(bytes.last() as nat, 2);
        lemma_lower_hex(bytes.drop_last());
        lemma_hex_digits(bytes.last() as nat, 2);
        assert forall|i: int| 0 <= i < (a + b).len() implies #[trigger] is_lower_hex_digit((a + b)[i]) by {
            if i < a.len() {
                assert((a + b)[i] == a[i]);
            } else {
                assert((a + b)[i] == b[i - a.len()]);
            }
        }
    }
}

/// A content hash is 64 lowercase hexadecimal digits.
pub proof fn lemma_content_hash_shape(data: Seq<u8>)
    requires
        sha256_of(data).len() == 32,
    ensures
        hash_shaped(content_hash_spec(data)),
{
    lemma_lower_hex(sha256_of(data));
}

/// The text that identifies a screenshot's content: 64 lowercase
/// hexadecimal digits.
pub fn content_hash(data: &[u8]) -> (r: String)
    ensures
        r@ == content_hash_spec(data@),
        hash_shaped(r@),
{
    let digest = sha256(data);
    proof {
        lemma_content_hash_shape(data@);
    }
    encode_hex(digest.as_slice())
}

/// The view of a list of `(path, name)` pairs as `(name, path)` pairs.
pub open spec fn by_name(entries: Seq<(String, String)>) -> Seq<(Seq<char>, Seq<char>)> {
    entries.map_values(|e: (String, String)| (e.1@, e.0@))
}

/// The views of optional byte lists.
pub open spec fn contents_view(contents: Seq<Option<Vec<u8>>>) -> Seq<Option<Seq<u8>>> {
    contents.map_values(|c: Option<Vec<u8>>| match c {
        Some(v) => Some(v@),
        None => None,
    })
}

/// The `(name, hash)` pair of each screenshot whose content could be read,
/// in order.
pub open spec fn name_hashes(names: Seq<Seq<char>>, contents: Seq<Option<Seq<u8>>>) -> Seq<
    (Seq<char>, Seq<char>),
>
    decreases names.len(),
{
    if names.len() == 0 || contents.len() == 0 {
        Seq::empty()
    } else {
        name_hashes(names.drop_last(), contents.drop_last()) + match contents.last() {
            Some(data) => seq![(names.last(), content_hash_spec(data))],
            None => Seq::empty(),
        }
    }
}

/// For the screenshots `(path, name)` and the content read from each path
/// (none where it could not be read): the map from each name to its path,
/// later screenshots replacing earlier ones of the same name, and the
/// `(name, hash)` pairs to ask the service about.
pub fn prepare_hashes(entries: &Vec<(String, String)>, contents: &Vec<Option<Vec<u8>>>) -> (r: (
    StringMap,
    Vec<(String, String)>,
))
    requires
        contents@.len() == entries@.len(),
    ensures
        r.0@ == pairs_map(by_name(entries@)),
        r.1@.map_values(|e: (String, String)| (e.0@, e.1@)) == name_hashes(
            by_name(entries@).map_values(|p: (Seq<char>, Seq<char>)| p.0),
            contents_view(contents@),
        ),
        forall|i: int| 0 <= i < r.1@.len() ==> hash_shaped(#[trigger] r.1@[i].1@),
{
    let ghost pairs = by_name(entries@);
    let ghost names = pairs.map_values(|p: (Seq<char>, Seq<char>)| p.0);
    let ghost datas = contents_view(contents@);
    let mut table = StringMap::new();
    let mut hashes: Vec<(String, String)> = Vec::new();
    let mut i: usize = 0;
    while i < entries.len()
        invariant
            i <= entries@.len(),
            contents@.len() == entries@.len(),
            pairs == by_name(entries@),
            names == pairs.map_values(|p: (Seq<char>, Seq<char>)| p.0),
            datas == contents_view(contents@),
            table@ == pairs_map(pairs.take(i as int)),
            hashes@.map_values(|e: (String, String)| (e.0@, e.1@)) == name_hashes(
                names.take(i as int),
                datas.take(i as int),
            ),
            forall|j: int| 0 <= j < hashes@.len() ==> hash_shaped(#[trigger] hashes@[j].1@),
        decreases entries@.len() - i,
    {
        let path = entries[i].0.clone();
        let name = entries[i].1.clone();
        table.insert(name.clone(), path);
        let ghost before = hashes@;
        match &contents[i] {
            Some(data) => {
                let hash = content_hash(data.as_slice());
                hashes.push((name, hash));
            },
            None => {},
        }
        proof {
            assert(pairs.take(i + 1).drop_last() =~= pairs.take(i as int));
            assert(pairs.take(i + 1).last() == pairs[i as int]);
            assert(names.take(i + 1).drop_last() =~= names.take(i as int));
            assert(datas.take(i + 1).drop_last() =~= datas.take(i as int));
            assert(names.take(i + 1).last() == entries@[i as int].1@);
            assert(datas.take(i + 1).last() == datas[i as int]);
            assert(hashes@.map_values(|e: (String, String)| (e.0@, e.1@)) =~= name_hashes(
                names.take(i + 1),
                datas.take(i + 1),
            ));
        }
        i = i + 1;
    }
    proof {
        assert(pairs.take(i as int) =~= pairs);
        assert(names.take(i as int) =~= names);
        assert(datas.take(i as int) =~= datas);
    }
    (table, hashes)
}

/// The service's answer names only screenshots that were asked about, each
/// once.
pub open spec fn reply_known(table: Map<Seq<char>, Seq<char>>, names: Seq<Seq<char>>) -> bool {
    &&& forall|i: int| 0 <= i < names.len() ==> table.dom().contains(#[trigger] names[i])
    &&& forall|i: int, j: int| 0 <= i < j < names.len() ==> names[i] != names[j]
}

/// Whether the service's answer names only screenshots that were asked
/// about, each once.
pub fn reply_is_known(table: &StringMap, reply: &Vec<Screenshot>) -> (r: bool)
    ensures
        r == reply_known(table@, screenshot_names(reply@)),
{
    let ghost names = screenshot_names(reply@);
    let mut i: usize = 0;
    while i < reply.len()
        invariant
            i <= reply@.len(),
            names == screenshot_names(reply@),
            forall|k: int| 0 <= k < i ==> table@.dom().contains(#[trigger] names[k]),
            forall|a: int, b: int| 0 <= a < b < i ==> names[a] != names[b],
        decreases reply@.len() - i,
    {
        if table.get(reply[i].name.as_str()).is_none() {
            proof {
                assert(names[i as int] == reply@[i as int].name@);
                assert(!table@.dom().contains(names[i as int]));
            }
            return false;
        }
        let mut j: usize = 0;
        while j < i
            invariant
                j <= i,
                i < reply@.len(),
                names == screenshot_names(reply@),
                forall|a: int| 0 <= a < j ==> names[a] != names[i as int],
            decreases i - j,
        {
            if text_eq(reply[j].name.as_str(), reply[i].name.as_str()) {
                proof {
                    assert(names[j as int] == reply@[j as int].name@);
                    assert(names[i as int] == reply@[i as int].name@);
                    assert(names[j as int] == names[i as int]);
                }
                return false;
            }
            j = j + 1;
        }
        i = i + 1;
    }
    true
}

/// The `(path, name)` pairs of the screenshots that the service lacks, in
/// the order of its answer.
pub fn paths_to_upload(table: &StringMap, reply: &Vec<Screenshot>) -> (r: Vec<(String, String)>)
    requires
        reply_known(table@, screenshot_names(reply@)),
    ensures
        r@.map_values(|e: (String, String)| (e.0@, e.1@)) == screenshot_names(reply@).map_values(
            |n: Seq<char>| (table@[n], n),
        ),
{
    let ghost names = screenshot_names(reply@);
    let ghost want = names.map_values(|n: Seq<char>| (table@[n], n));
    let mut out: Vec<(String, String)> = Vec::new();
    let mut i: usize = 0;
    while i < reply.len()
        invariant
            i <= reply@.len(),
            names == screenshot_names(reply@),
            want == names.map_values(|n: Seq<char>| (table@[n], n)),
            reply_known(table@, names),
            out@.map_values(|e: (String, String)| (e.0@, e.1@)) == want.take(i as int),
        decreases reply@.len() - i,
    {
        let name = reply[i].name.clone();
        assert(table@.dom().contains(names[i as int]));
        let path = match table.get(name.as_str()) {
            Some(p) => p,
            None => {
                proof {
                    assert(false);
                }
                String::new()
            },
        };
        let ghost before = out@;
        out.push((path, name));
        proof {
            assert(out@.map_values(|e: (String, String)| (e.0@, e.1@)) =~= want.take(i + 1)) by {
                assert(want.take(i + 1).drop_last() =~= want.take(i as int));
                assert(before.map_values(|e: (String, String)| (e.0@, e.1@)) == want.take(
                    i as int,
                ));
            }
        }
        i = i + 1;
    }
    proof {
        assert(want.take(i as int) =~= want);
    }
    out
}

/// Every screenshot as a `(path, name)` pair, for when the service could
/// not be asked which it lacks.
pub fn all_paths(table: &StringMap) -> (r: Vec<(String, String)>)
    ensures
        r@.map_values(|e: (String, String)| (e.1@, e.0@)) == table.entry_seq(),
        pairs_map(table.entry_seq()) == table@,
        forall|i: int, j: int| 0 <= i < j < r@.len() ==> r@[i].1@ != r@[j].1@,
{
    let entries = table.entries();
    let ghost es = entries@;
    let mut out: Vec<(String, String)> = Vec::new();
    let mut i: usize = 0;
    while i < entries.len()
        invariant
            i <= entries@.len(),
            es == entries@,
            out@.map_values(|e: (String, String)| (e.1@, e.0@)) == es.map_values(
                |e: (String, String)| (e.0@, e.1@),
            ).take(i as int),
        decreases entries@.len() - i,
    {
        let ghost before = out@;
        out.push((entries[i].1.clone(), entries[i].0.clone()));
        proof {
            let m = es.map_values(|e: (String, String)| (e.0@, e.1@));
            assert(m.take(i + 1).drop_last() =~= m.take(i as int));
            assert(out@.map_values(|e: (String, String)| (e.1@, e.0@)) =~= m.take(i + 1)) by {
                assert(before.map_values(|e: (String, String)| (e.1@, e.0@)) == m.take(i as int));
            }
        }
        i = i + 1;
    }
    proof {
        let m = es.map_values(|e: (String, String)| (e.0@, e.1@));
        assert(m.take(i as int) =~= m);
        let o = out@.map_values(|e: (String, String)| (e.1@, e.0@));
        assert forall|a: int, b: int| 0 <= a < b < out@.len() implies out@[a].1@ != out@[b].1@ by {
            assert(o[a] == m[a] && o[b] == m[b]);
            assert(m[a].0 != m[b].0);
        }
    }
    out
}

} // verus!
