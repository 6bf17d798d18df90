//! What chunk reassembly decides about the chunks it fetches: under which
//! hash a received chunk packet is filed, whether its whole packet or only
//! its data is kept, and which chunks are asked of the route after the
//! home repository.
use vstd::prelude::*;

use crate::text::str_equals;

verus! {

/// The prefix of a packet's hash header: `🖧: `.
pub open spec fn hash_header_prefix() -> Seq<char> {
    seq!['\u{1F5A7}', ':', ' ']
}

/// The hash that a received chunk packet is filed under: its hash header
/// without the `🖧: ` prefix and the final line end, or the whole header
/// where it lacks either.
pub open spec fn chunk_hash_key(header: Seq<char>) -> Seq<char> {
    if hash_header_prefix().is_prefix_of(header) && header.len() >= 4 && header.last() == '\n' {
        header.subrange(3, header.len() - 1)
    } else {
        header
    }
}

/// Whether a chunk is a nested manifest (a `P.` hash), whose whole packet
/// is kept so that it can be read again; of other chunks only the data is
/// kept.
pub open spec fn keeps_whole_packet(hash: Seq<char>) -> bool {
    seq!['P', '.'].is_prefix_of(hash)
}

/// The hash that a received chunk packet with this hash header is filed
/// under (see `chunk_hash_key`).
pub fn chunk_blob_key(hash_header: &str) -> (r: &str)
    ensures
        r@ == chunk_hash_key(hash_header@),
{
    let n = hash_header.unicode_len();
    if n >= 4 && hash_header.get_char(0) == '\u{1F5A7}' && hash_header.get_char(1) == ':' && hash_header.get_char(2)
        == ' ' && hash_header.get_char(n - 1) == '\n' {
        proof {
            assert(hash_header_prefix() =~= hash_header@.subrange(0, 3));
        }
        hash_header.substring_char(3, n - 1)
    } else {
        proof {
            if hash_header_prefix().is_prefix_of(hash_header@) && n >= 4 {
                assert(hash_header@[0] == hash_header_prefix()[0]);
                assert(hash_header@[1] == hash_header_prefix()[1]);
                assert(hash_header@[2] == hash_header_prefix()[2]);
            }
        }
        hash_header
    }
}

/// Whether the whole packet of the chunk with this hash is kept (see
/// `keeps_whole_packet`).
pub fn chunk_keeps_whole_packet(hash: &str) -> (r: bool)
    ensures
        r == keeps_whole_packet(hash@),
{
    let n = hash.unicode_len();
    let r = n >= 2 && hash.get_char(0) == 'P' && hash.get_char(1) == '.';
    proof {
        if keeps_whole_packet(hash@) {
            assert(hash@[0] == 'P' && hash@[1] == '.');
        }
        if r {
            assert(seq!['P', '.'] =~= hash@.subrange(0, 2));
        }
    }
    r
}

/// The chunks still to fetch after the home repository answered: those of
/// `hashes` it did not send, in order; none where the endpoint is the
/// repository itself.
pub open spec fn route_fetches(hashes: Seq<Seq<char>>, fetched: Seq<Seq<char>>, is_repo: bool) -> Seq<Seq<char>> {
    if is_repo {
        Seq::empty()
    } else {
        hashes.filter(|h: Seq<char>| !fetched.contains(h))
    }
}

/// The model of a list of strings.
pub open spec fn strings_view(v: Seq<String>) -> Seq<Seq<char>> {
    v.map_values(|s: String| s@)
}

/// Whether `fetched` holds a string with the characters of `h`.
fn contains_string(fetched: &Vec<String>, h: &str) -> (r: bool)
    ensures
        r == strings_view(fetched@).contains(h@),
{
    let mut i: usize = 0;
    while i < fetched.len()
        invariant
            i <= fetched.len(),
            forall|k: int| 0 <= k < i ==> fetched@[k]@ != h@,
        decreases fetched.len() - i,
    {
        if str_equals(fetched[i].as_str(), h) {
            proof {
                assert(strings_view(fetched@)[i as int] == h@);
            }
            return true;
        }
        i = i + 1;
    }
    proof {
        if strings_view(fetched@).contains(h@) {
            let k = choose|k: int| 0 <= k < strings_view(fetched@).len() && strings_view(fetched@)[k] == h@;
            assert(fetched@[k]@ == h@);
        }
    }
    false
}

/// The chunks to ask the route for after the home repository sent
/// `fetched` (see `route_fetches`).
pub fn chunks_to_fetch_from_route(hashes: &Vec<String>, fetched: &Vec<String>, is_repo: bool) -> (r: Vec<String>)
    ensures
        strings_view(r@) == route_fetches(strings_view(hashes@), strings_view(fetched@), is_repo),
{
    let mut r: Vec<String> = Vec::new();
    if is_repo {
        proof {
            assert(strings_view(r@) =~= Seq::<Seq<char>>::empty());
        }
        return r;
    }
    let ghost pred = |h: Seq<char>| !strings_view(fetched@).contains(h);
    let mut i: usize = 0;
    while i < hashes.len()
        invariant
            i <= hashes.len(),
            pred == (|h: Seq<char>| !strings_view(fetched@).contains(h)),
            strings_view(r@) == strings_view(hashes@.take(i as int)).filter(pred),
        decreases hashes.len() - i,
    {
        let ghost before = strings_view(hashes@.take(i as int));
        let ghost after = strings_view(hashes@.take(i + 1));
        proof {
            assert(after.drop_last() =~= before);
            assert(after.last() == hashes@[i as int]@);
        }
        let h = hashes[i].as_str();
        if !contains_string(fetched, h) {
            let ghost old_r = r@;
            r.push(hashes[i].clone());
            proof {
                assert(strings_view(r@) =~= strings_view(old_r).push(h@));
            }
        }
        proof {
            assert(after.filter(pred) == if pred(after.last()) {
                before.filter(pred).push(after.last())
            } else {
                before.filter(pred)
            }) by {
                reveal(Seq::filter);
            }
        }
        i = i + 1;
    }
    proof {
        assert(hashes@.take(hashes.len() as int) =~= hashes@);
    }
    r
}

} // verus!
