//! Writing values in the forms that the remote service expects.

use crate::codec::{decimal, encode_i32};
use crate::text::texts;
use vstd::prelude::*;

verus! {

/// The number for an optional flag: 1 where it is set, 0 where it is not set or
/// missing.
pub fn serialize_option_bool_as_int(value: &Option<bool>) -> (number: i32)
    ensures
        number == (if *value == Some(true) {
            1i32
        } else {
            0i32
        }),
{
    match value {
        Some(true) => 1,
        Some(false) | None => 0,
    }
}

/// The text for an optional number: its decimal form, or the word `null`.
pub fn ser_opt_as_str(value: &Option<i32>) -> (text: String)
    ensures
        text@ == (match *value {
            Some(v) => decimal(v as int),
            None => "null"@,
        }),
{
    match value {
        Some(v) => encode_i32(*v),
        None => "null".to_owned(),
    }
}

/// The text for a number: its decimal form.
pub fn ser_as_str(value: i32) -> (text: String)
    ensures
        text@ == decimal(value as int),
{
    encode_i32(value)
}

/// The texts of a list, joined by commas. An empty list gives the empty text.
pub open spec fn comma_separated(list: Seq<Seq<char>>) -> Seq<char>
    decreases list.len(),
{
    if list.len() == 0 {
        Seq::empty()
    } else if list.len() == 1 {
        list[0]
    } else {
        comma_separated(list.drop_last()) + seq![','] + list.last()
    }
}

/// The text for a list of texts: its elements, separated by commas.
pub fn serialize_vec_as_comma_separated(list: &Vec<String>) -> (text: String)
    ensures
        text@ == comma_separated(texts(list@)),
{
    let ghost all = texts(list@);
    let mut text = String::new();
    let n = list.len();
    let mut k: usize = 0;
    proof {
        assert(all.take(0) =~= Seq::<Seq<char>>::empty());
    }
    while k < n
        invariant
            k <= n,
            n == list.len(),
            all == texts(list@),
            text@ == comma_separated(all.take(k as int)),
        decreases n - k,
    {
        proof {
            reveal_strlit(",");
            assert(all.take(k + 1).drop_last() =~= all.take(k as int));
            assert(all.take(k + 1).last() == list[k as int]@);
            if k == 0 {
                assert(text@ + list[k as int]@ =~= list[k as int]@);
            }
        }
        if k > 0 {
            text.append(",");
        }
        text.append(list[k].as_str());
        k = k + 1;
    }
    proof {
        assert(all.take(n as int) =~= all);
    }
    text
}

} // verus!
