//! Trailers that are added to a commit message.

use crate::error::Error;
use crate::text::{lemma_rank_bounds, rank, stable_order, utf8_to_string};
use vstd::prelude::*;
use vstd::string::*;
use vstd::utf8::*;

verus! {

/// One trailer in the making: where its option stood on the command line,
/// its key, and the value given with the option.
pub struct Entry {
    pub index: usize,
    pub key: Seq<char>,
    pub value: Seq<char>,
}

/// The options of one kind as trailers with the key of that kind.
pub open spec fn tagged(options: Seq<(usize, String)>, key: Seq<char>) -> Seq<Entry> {
    Seq::new(
        options.len(),
        |i: int| Entry { index: options[i].0, key, value: options[i].1@ },
    )
}

/// The trailers that the options ask for: those that sign off, those that
/// acknowledge and those that tell of a review.
pub open spec fn requested(
    signoff: Seq<(usize, String)>,
    ack: Seq<(usize, String)>,
    review: Seq<(usize, String)>,
) -> Seq<Entry> {
    tagged(signoff, "Signed-off-by"@) + tagged(ack, "Acked-by"@) + tagged(review, "Reviewed-by"@)
}

/// All trailers in the making: the requested ones and, behind them, the
/// one that is added without being asked for, which counts as standing in
/// front of all options.
pub open spec fn all_entries(entries: Seq<Entry>, autosign: Option<Seq<char>>, default: Seq<char>) -> Seq<
    Entry,
> {
    match autosign {
        Some(key) => entries.push(Entry { index: 0, key, value: default }),
        None => entries,
    }
}

/// The positions of the entries on the command line.
pub open spec fn entry_indices(entries: Seq<Entry>) -> Seq<usize> {
    Seq::new(entries.len(), |i: int| entries[i].index)
}

/// The value of a trailer without a value of its own: the name and the
/// address of the signature.
pub open spec fn default_value(name: Seq<char>, email: Seq<char>) -> Seq<char> {
    name + " <"@ + email + ">"@
}

/// The trailer that an entry gives.
pub open spec fn trailer_of(entry: Entry, default: Seq<char>) -> (Seq<char>, Seq<char>) {
    (
        entry.key,
        if entry.value.len() == 0 {
            default
        } else {
            entry.value
        },
    )
}

/// The views of trailers.
pub open spec fn trailer_views(trailers: Seq<(String, String)>) -> Seq<(Seq<char>, Seq<char>)> {
    Seq::new(trailers.len(), |i: int| (trailers[i].0@, trailers[i].1@))
}

/// Whether `trailers` are the trailers of `entries` in the order of their
/// positions on the command line, entries at the same position in their
/// own order.
pub open spec fn in_command_line_order(
    trailers: Seq<(Seq<char>, Seq<char>)>,
    entries: Seq<Entry>,
    default: Seq<char>,
) -> bool {
    &&& trailers.len() == entries.len()
    &&& forall|p: int|
        0 <= p < entries.len() ==> 0 <= #[trigger] rank(entry_indices(entries), p) < entries.len()
            && trailers[rank(entry_indices(entries), p)] == trailer_of(entries[p], default)
}

fn append_tagged(
    indices: &mut Vec<usize>,
    keys: &mut Vec<String>,
    values: &mut Vec<String>,
    options: &Vec<(usize, String)>,
    key: &str,
    Ghost(before): Ghost<Seq<Entry>>,
)
    requires
        entries_of(old(indices)@, old(keys)@, old(values)@) == before,
        old(indices)@.len() == old(keys)@.len() == old(values)@.len(),
    ensures
        entries_of(final(indices)@, final(keys)@, final(values)@) == before + tagged(
            options@,
            key@,
        ),
        final(indices)@.len() == final(keys)@.len() == final(values)@.len(),
{
    let mut i: usize = 0;
    while i < options.len()
        invariant
            i <= options.len(),
            indices@.len() == keys@.len() == values@.len(),
            entries_of(indices@, keys@, values@) == before + tagged(options@.take(i as int), key@),
        decreases options.len() - i,
    {
        let ghost then = entries_of(indices@, keys@, values@);
        indices.push(options[i].0);
        keys.push(String::from_str(key));
        values.push(options[i].1.clone());
        proof {
            let entry = Entry { index: options@[i as int].0, key: key@, value: options@[i as int].1@ };
            assert(entries_of(indices@, keys@, values@) =~= then.push(entry));
            assert(tagged(options@.take(i + 1), key@) =~= tagged(options@.take(i as int), key@).push(
                entry,
            ));
        }
        i += 1;
    }
}

/// The entries held in three vectors of the same length.
pub open spec fn entries_of(indices: Seq<usize>, keys: Seq<String>, values: Seq<String>) -> Seq<Entry> {
    Seq::new(
        indices.len(),
        |i: int| Entry { index: indices[i], key: keys[i]@, value: values[i]@ },
    )
}

/// Plans the trailers to add to a commit message.
///
/// Each list holds the options of one kind, each with its position on the
/// command line and its value. `autosign` is the key of a trailer that is
/// added in any case. Where there is nothing to add, the plan is empty and
/// the signature is not looked at. Otherwise the signature must be text: a
/// trailer without a value gets the name and the address of the signature as
/// its value. The trailers come in the order of the command line.
pub fn plan_trailers(
    signoff: &Vec<(usize, String)>,
    ack: &Vec<(usize, String)>,
    review: &Vec<(usize, String)>,
    autosign: Option<&str>,
    name: &[u8],
    email: &[u8],
) -> (plan: Result<Vec<(String, String)>, Error>)
    ensures
        ({
            let entries = requested(signoff@, ack@, review@);
            if entries.len() == 0 && autosign is None {
                plan is Ok && plan.unwrap()@.len() == 0
            } else if !valid_utf8(name@) || !valid_utf8(email@) {
                plan matches Err(Error::NonUtf8Signature)
            } else {
                let default = default_value(decode_utf8(name@), decode_utf8(email@));
                plan is Ok && in_command_line_order(
                    trailer_views(plan.unwrap()@),
                    all_entries(
                        entries,
                        match autosign {
                            Some(key) => Some(key@),
                            None => None,
                        },
                        default,
                    ),
                    default,
                )
            }
        }),
{
    let mut indices: Vec<usize> = Vec::new();
    let mut keys: Vec<String> = Vec::new();
    let mut values: Vec<String> = Vec::new();
    let ghost none = Seq::<Entry>::empty();
    assert(entries_of(indices@, keys@, values@) =~= none);
    append_tagged(&mut indices, &mut keys, &mut values, signoff, "Signed-off-by", Ghost(none));
    let ghost first = none + tagged(signoff@, "Signed-off-by"@);
    append_tagged(&mut indices, &mut keys, &mut values, ack, "Acked-by", Ghost(first));
    let ghost second = first + tagged(ack@, "Acked-by"@);
    append_tagged(&mut indices, &mut keys, &mut values, review, "Reviewed-by", Ghost(second));
    let ghost entries = requested(signoff@, ack@, review@);
    if indices.len() == 0 && autosign.is_none() {
        return Ok(Vec::new());
    }
    let signer = match utf8_to_string(name) {
        Some(text) => text,
        None => {
            return Err(Error::NonUtf8Signature);
        },
    };
    let address = match utf8_to_string(email) {
        Some(text) => text,
        None => {
            return Err(Error::NonUtf8Signature);
        },
    };
    let mut default = signer;
    default.append(" <");
    default.append(address.as_str());
    default.append(">");
    match autosign {
        Some(key) => {
            indices.push(0);
            keys.push(String::from_str(key));
            values.push(default.clone());
        },
        None => {},
    }
    let ghost all = all_entries(
        entries,
        match autosign {
            Some(key) => Some(key@),
            None => None,
        },
        default@,
    );
    assert(indices@ =~= entry_indices(all));
    let n = indices.len();
    let order = stable_order(&indices);
    let mut plan: Vec<(String, String)> = Vec::new();
    let mut k: usize = 0;
    while k < n
        invariant
            k <= n,
            n == indices@.len() == keys@.len() == values@.len(),
            order@.len() == n,
            plan@.len() == k,
            entries_of(indices@, keys@, values@) == all,
            forall|i: int| 0 <= i < n ==> (#[trigger] order@[i]) < n,
            forall|i: int|
                0 <= i < k ==> (#[trigger] plan@[i]).0@ == all[order@[i] as int].key && plan@[i].1@
                    == trailer_of(all[order@[i] as int], default@).1,
        decreases n - k,
    {
        let at = order[k];
        let value = if values[at].as_str().unicode_len() == 0 {
            default.clone()
        } else {
            values[at].clone()
        };
        plan.push((keys[at].clone(), value));
        k += 1;
    }
    proof {
        let views = trailer_views(plan@);
        assert forall|p: int| 0 <= p < all.len() implies 0 <= #[trigger] rank(
            entry_indices(all),
            p,
        ) < all.len() && views[rank(entry_indices(all), p)] == trailer_of(all[p], default@) by {
            lemma_rank_bounds(indices@, p);
            let r = rank(indices@, p);
        }
    }
    Ok(plan)
}

} // verus!
