//! The market scanner's watch list.
use crate::text::str_eq;
use vstd::prelude::*;
use vstd::string::StringExecFns;

verus! {

/// The symbols as plain text.
pub open spec fn texts(symbols: Seq<String>) -> Seq<Seq<char>> {
    symbols.map_values(|s: String| s@)
}

/// The watch list: the top movers, followed by each held symbol that is not in
/// the list yet (so no held asset drops out of surveillance).
pub open spec fn merge_symbols(movers: Seq<Seq<char>>, held: Seq<Seq<char>>) -> Seq<Seq<char>>
    decreases held.len(),
{
    if held.len() == 0 {
        movers
    } else {
        let earlier = merge_symbols(movers, held.drop_last());
        if earlier.contains(held.last()) {
            earlier
        } else {
            earlier.push(held.last())
        }
    }
}

fn contains_symbol(symbols: &Vec<String>, symbol: &str) -> (r: bool)
    ensures
        r == texts(symbols@).contains(symbol@),
{
    let mut i: usize = 0;
    while i < symbols.len()
        invariant
            i <= symbols.len(),
            forall|j: int| 0 <= j < i ==> (#[trigger] symbols@[j])@ != symbol@,
        decreases symbols.len() - i,
    {
        if str_eq(symbols[i].as_str(), symbol) {
            proof {
                assert(texts(symbols@)[i as int] == symbol@);
            }
            return true;
        }
        i = i + 1;
    }
    proof {
        if texts(symbols@).contains(symbol@) {
            let k = choose|k: int| 0 <= k < texts(symbols@).len() && texts(symbols@)[k] == symbol@;
            assert(symbols@[k]@ == symbol@);
        }
    }
    false
}

/// The symbols to subscribe to: the top movers plus the held symbols.
pub fn watch_list(movers: Vec<String>, held: &Vec<String>) -> (r: Vec<String>)
    ensures
        texts(r@) == merge_symbols(texts(movers@), texts(held@)),
{
    let mut symbols = movers;
    let ghost start = texts(symbols@);
    let mut i: usize = 0;
    while i < held.len()
        invariant
            i <= held.len(),
            texts(symbols@) == merge_symbols(start, texts(held@).take(i as int)),
        decreases held.len() - i,
    {
        let ghost before = texts(symbols@);
        proof {
            assert(texts(held@).take(i + 1).drop_last() =~= texts(held@).take(i as int));
            assert(texts(held@).take(i + 1).last() == held@[i as int]@);
        }
        if !contains_symbol(&symbols, held[i].as_str()) {
            symbols.push(String::from_str(held[i].as_str()));
            proof {
                assert(texts(symbols@) =~= before.push(held@[i as int]@));
            }
        }
        i = i + 1;
    }
    proof {
        assert(texts(held@).take(held@.len() as int) =~= texts(held@));
    }
    symbols
}

/// Every held symbol is in the watch list, and the movers keep their places at
/// its front.
pub proof fn lemma_watch_list_keeps_held(movers: Seq<Seq<char>>, held: Seq<Seq<char>>)
    ensures
        forall|i: int| 0 <= i < held.len() ==> merge_symbols(movers, held).contains(#[trigger] held[i]),
        merge_symbols(movers, held).take(movers.len() as int) == movers,
        merge_symbols(movers, held).len() >= movers.len(),
    decreases held.len(),
{
    if held.len() > 0 {
        let prefix = held.drop_last();
        lemma_watch_list_keeps_held(movers, prefix);
        let earlier = merge_symbols(movers, prefix);
        let result = merge_symbols(movers, held);
        assert forall|i: int| 0 <= i < held.len() implies result.contains(#[trigger] held[i]) by {
            if i < held.len() - 1 {
                assert(prefix[i] == held[i]);
                assert(earlier.contains(prefix[i]));
                if !earlier.contains(held.last()) {
                    let k = choose|k: int| 0 <= k < earlier.len() && earlier[k] == held[i];
                    assert(result[k] == held[i]);
                }
            } else if !earlier.contains(held.last()) {
                assert(result[earlier.len() as int] == held[i]);
            }
        }
        if !earlier.contains(held.last()) {
            assert(result.take(movers.len() as int) =~= earlier.take(movers.len() as int));
        }
    } else {
        assert(movers.take(movers.len() as int) =~= movers);
    }
}

} // verus!
