use vstd::prelude::*;
use crate::model::{Chat, ChatRaw};
use crate::registry::names;

verus! {

/// What `str::trim` leaves of `s`.
pub uninterp spec fn trimmed(s: Seq<char>) -> Seq<char>;

/// Relies on `str::trim`: the result depends on the characters of `s` alone.
#[verifier::external_body]
fn trim_spaces(s: &str) -> (r: String)
    ensures
        r@ == trimmed(s@),
{
    s.trim().to_string()
}

/// The pieces of `s` between commas, in order; a string without a comma is one piece.
pub open spec fn split_at_commas(s: Seq<char>) -> Seq<Seq<char>>
    decreases s.len(),
{
    if s.len() == 0 {
        seq![Seq::<char>::empty()]
    } else {
        let prev = split_at_commas(s.drop_last());
        if s.last() == ',' {
            prev.push(Seq::<char>::empty())
        } else {
            prev.update(prev.len() - 1, prev.last().push(s.last()))
        }
    }
}

/// `s` without repeated entries, each kept where it first occurs.
pub open spec fn first_occurrences(s: Seq<Seq<char>>) -> Seq<Seq<char>>
    decreases s.len(),
{
    if s.len() == 0 {
        Seq::empty()
    } else {
        let d = first_occurrences(s.drop_last());
        if d.contains(s.last()) {
            d
        } else {
            d.push(s.last())
        }
    }
}

/// The participants that a comma-separated member list shows to `u`: the trimmed
/// names other than `u`, each once, in order of first occurrence.
pub open spec fn participants_for(list: Seq<char>, u: Seq<char>) -> Seq<Seq<char>> {
    first_occurrences(split_at_commas(list).map_values(|p: Seq<char>| trimmed(p)).filter(|p: Seq<char>| p != u))
}

/// Splits `s` at every comma.
pub fn split_commas(s: &String) -> (r: Vec<String>)
    ensures
        names(r@) == split_at_commas(s@),
{
    let text = s.as_str();
    let n = text.unicode_len();
    let mut out: Vec<String> = Vec::new();
    let mut start: usize = 0;
    let mut i: usize = 0;
    proof {
        assert(s@.take(0) =~= Seq::<char>::empty());
        assert(names(out@).push(s@.subrange(0, 0)) =~= seq![Seq::<char>::empty()]);
    }
    while i < n
        invariant
            start <= i <= n,
            n == s@.len(),
            text@ == s@,
            names(out@).push(s@.subrange(start as int, i as int)) == split_at_commas(s@.take(i as int)),
        decreases n - i,
    {
        let ghost prev = split_at_commas(s@.take(i as int));
        proof {
            assert(s@.take(i as int + 1).drop_last() == s@.take(i as int));
            assert(s@.take(i as int + 1).last() == s@[i as int]);
        }
        let c = text.get_char(i);
        if c == ',' {
            let piece = text.substring_char(start, i).to_owned();
            out.push(piece);
            start = i + 1;
            proof {
                assert(names(out@) =~= prev);
                assert(s@.subrange(start as int, i as int + 1) =~= Seq::<char>::empty());
            }
        } else {
            proof {
                assert(s@.subrange(start as int, i as int + 1) =~= s@.subrange(start as int, i as int).push(c));
                assert(names(out@).push(s@.subrange(start as int, i as int + 1)) =~= prev.update(
                    prev.len() - 1,
                    prev.last().push(c),
                ));
            }
        }
        i += 1;
    }
    let last = text.substring_char(start, n).to_owned();
    let ghost before = out@;
    out.push(last);
    proof {
        assert(s@.take(n as int) == s@);
        assert(names(out@) =~= names(before).push(s@.subrange(start as int, n as int)));
    }
    out
}

/// Whether `v` holds a string equal to `t`.
fn holds_name(v: &Vec<String>, t: &String) -> (r: bool)
    ensures
        r == names(v@).contains(t@),
{
    let mut i: usize = 0;
    while i < v.len()
        invariant
            i <= v@.len(),
            forall|k: int| 0 <= k < i ==> v@[k]@ != t@,
        decreases v@.len() - i,
    {
        if v[i] == *t {
            proof {
                assert(names(v@)[i as int] == t@);
            }
            return true;
        }
        i += 1;
    }
    proof {
        if names(v@).contains(t@) {
            let k = choose|k: int| 0 <= k < names(v@).len() && names(v@)[k] == t@;
            assert(v@[k]@ == t@);
        }
    }
    false
}

/// The chat that a joined row shows to `username`: its participants are the
/// trimmed names of the list but `username`, each once.
pub fn chat_from_raw(raw: ChatRaw, username: &String) -> (r: Chat)
    ensures
        r.id == raw.id,
        r.name == raw.name,
        r.is_group == raw.is_group,
        r.created_at == raw.created_at,
        names(r.participants@) == participants_for(raw.participants@, username@),
{
    let pieces = split_commas(&raw.participants);
    let ghost trimmed_all = names(pieces@).map_values(|p: Seq<char>| trimmed(p));
    let mut out: Vec<String> = Vec::new();
    let mut i: usize = 0;
    while i < pieces.len()
        invariant
            i <= pieces@.len(),
            trimmed_all == names(pieces@).map_values(|p: Seq<char>| trimmed(p)),
            names(out@) == first_occurrences(trimmed_all.take(i as int).filter(|p: Seq<char>| p != username@)),
        decreases pieces@.len() - i,
    {
        let t = trim_spaces(pieces[i].as_str());
        proof {
            assert(trimmed_all.take(i as int + 1) == trimmed_all.take(i as int).push(t@));
            trimmed_all.take(i as int).lemma_filter_push(t@, |p: Seq<char>| p != username@);
            let f = trimmed_all.take(i as int).filter(|p: Seq<char>| p != username@);
            assert(f.push(t@).drop_last() == f);
        }
        if t != *username && !holds_name(&out, &t) {
            let ghost before = out@;
            out.push(t);
            proof {
                assert(names(out@) =~= names(before).push(t@));
            }
        }
        i += 1;
    }
    proof {
        assert(trimmed_all.take(pieces@.len() as int) == trimmed_all);
    }
    Chat { id: raw.id, name: raw.name, is_group: raw.is_group, created_at: raw.created_at, participants: out }
}

} // verus!
