//! The field normalizer: client documents name their fields in lower camel
//! case, the stored documents with an upper-case first letter.

use crate::json::{distinct_keys, lemma_with_entry_keys, with_entry, Json, JsonModel};
use vstd::prelude::*;

verus! {

/// The uppercase mapping of a character as `char::to_uppercase` yields it: one
/// character or more. A function of the character alone.
pub uninterp spec fn uppercase(c: char) -> Seq<char>;

/// Calls `char::to_uppercase` and collects what the iterator yields.
#[verifier::external_body]
fn to_uppercase(c: char) -> (upper: String)
    ensures
        upper@ == uppercase(c),
{
    c.to_uppercase().collect()
}

/// A text without its first character; the empty text stays empty.
pub open spec fn tail(s: Seq<char>) -> Seq<char> {
    if s.len() == 0 {
        s
    } else {
        s.subrange(1, s.len() as int)
    }
}

/// A field name in canonical casing: its first character replaced by that
/// character's uppercase mapping.
pub open spec fn upcased(s: Seq<char>) -> Seq<char> {
    if s.len() == 0 {
        s
    } else {
        uppercase(s[0]) + tail(s)
    }
}

/// Puts `head` in the place of the first character of `s`.
pub fn replace_first(s: &str, head: String) -> (r: String)
    ensures
        r@ == head@ + tail(s@),
{
    let n = s.unicode_len();
    if n == 0 {
        assert(head@ + tail(s@) =~= head@);
        head
    } else {
        let rest = s.substring_char(1, n);
        head.concat(rest)
    }
}

/// The name with its first character in upper case.
pub fn upcase_first(s: &str) -> (r: String)
    ensures
        r@ == upcased(s@),
{
    let n = s.unicode_len();
    if n == 0 {
        let r = String::new();
        assert(r@ =~= s@);
        r
    } else {
        let head = to_uppercase(s.get_char(0));
        replace_first(s, head)
    }
}

/// The entries of `to` after each entry of `from`, in order, is set under its
/// canonical name. A later entry of `from` overwrites an earlier one of the
/// same canonical name, and any entry of `to` with that name.
pub open spec fn normalized_into(
    to: Seq<(Seq<char>, JsonModel)>,
    from: Seq<(Seq<char>, JsonModel)>,
) -> Seq<(Seq<char>, JsonModel)>
    decreases from.len(),
{
    if from.len() == 0 {
        to
    } else {
        with_entry(normalized_into(to, from.drop_last()), upcased(from.last().0), from.last().1)
    }
}

/// The document that `copy_values` leaves in `to`.
pub open spec fn copied_into(to: JsonModel, from: JsonModel) -> JsonModel {
    if from is Object && from.entries().len() > 0 {
        JsonModel::Object(normalized_into(to.entries(), from.entries()))
    } else {
        to
    }
}

/// Copying fields into entries that name each key once leaves such entries.
pub proof fn lemma_normalized_distinct(
    to: Seq<(Seq<char>, JsonModel)>,
    from: Seq<(Seq<char>, JsonModel)>,
)
    requires
        distinct_keys(to),
    ensures
        distinct_keys(normalized_into(to, from)),
    decreases from.len(),
{
    if from.len() > 0 {
        lemma_normalized_distinct(to, from.drop_last());
        lemma_with_entry_keys(
            normalized_into(to, from.drop_last()),
            upcased(from.last().0),
            from.last().1,
        );
    }
}

/// Copies every field of the object `from` into `to` under its canonical
/// name, the values as they are. Returns `false`, and leaves `to` alone, where
/// `from` is not an object. The target is an object that names each key once,
/// or `null`, and stays one that names each key once.
pub fn copy_values(from: &Json, to: &mut Json) -> (copied: bool)
    requires
        from@ is Object && from@.entries().len() > 0 ==> (old(to)@ is Object || old(to)@ is Null)
            && distinct_keys(old(to)@.entries()),
    ensures
        copied == (from@ is Object),
        final(to)@ == copied_into(old(to)@, from@),
        distinct_keys(old(to)@.entries()) ==> distinct_keys(final(to)@.entries()),
{
    match from {
        Json::Object(entries) => {
            proof {
                crate::json::lemma_view_parts(*from);
            }
            let ghost source = from@.entries();
            let mut i: usize = 0;
            while i < entries.len()
                invariant
                    i <= entries.len(),
                    source == crate::json::entry_models(entries@),
                    i == 0 ==> to@ == old(to)@,
                    i > 0 ==> to@ == JsonModel::Object(
                        normalized_into(old(to)@.entries(), source.take(i as int)),
                    ),
                    entries.len() > 0 ==> (old(to)@ is Object || old(to)@ is Null)
                        && distinct_keys(old(to)@.entries()),
                    distinct_keys(old(to)@.entries()) ==> distinct_keys(to@.entries()),
                decreases entries.len() - i,
            {
                let name = upcase_first(entries[i].0.as_str());
                let value = entries[i].1.clone();
                proof {
                    let next = source.take(i + 1);
                    assert(next.drop_last() =~= source.take(i as int));
                    assert(next.last() == source[i as int]);
                    assert(source[i as int] == (entries@[i as int].0@, entries@[i as int].1@));
                    assert(normalized_into(old(to)@.entries(), next) == with_entry(
                        normalized_into(old(to)@.entries(), next.drop_last()),
                        upcased(next.last().0),
                        next.last().1,
                    ));
                    assert(to@.entries() == normalized_into(
                        old(to)@.entries(),
                        source.take(i as int),
                    ));
                }
                to.put(name, value);
                i += 1;
            }
            proof {
                assert(source.take(entries.len() as int) =~= source);
            }
            true
        },
        _ => false,
    }
}

} // verus!
