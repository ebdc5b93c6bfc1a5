use crate::error::ReadingError;
use crate::ser::{element, read_bool_at, read_i32_at, read_string_at};
use crate::var_int::decode_var_int;
use vstd::prelude::*;

verus! {

/// The next VarInt of a byte sequence read element by element.
pub open spec fn next_var_int_at(s: Seq<u8>, p: int) -> Result<(i32, int), ReadingError> {
    element(s, p, decode_var_int(s, p))
}

/// The next boolean of a byte sequence read element by element.
pub open spec fn next_bool_at(s: Seq<u8>, p: int) -> Result<(bool, int), ReadingError> {
    element(s, p, read_bool_at(s, p))
}

/// The next `i32` of a byte sequence read element by element.
pub open spec fn next_i32_at(s: Seq<u8>, p: int) -> Result<(i32, int), ReadingError> {
    element(s, p, read_i32_at(s, p))
}

/// The next string of a byte sequence read element by element.
pub open spec fn next_string_at(s: Seq<u8>, p: int) -> Result<(Seq<char>, int), ReadingError> {
    element(s, p, read_string_at(s, p))
}

/// `x` in front of the list that `r` read.
pub open spec fn cons<T>(x: T, r: Result<(Seq<T>, int), ReadingError>) -> Result<(Seq<T>, int), ReadingError> {
    match r {
        Ok((xs, q)) => Ok((seq![x] + xs, q)),
        Err(e) => Err(e),
    }
}

/// `a` in front of the list that `r` read.
pub open spec fn after<T>(a: Seq<T>, r: Result<(Seq<T>, int), ReadingError>) -> Result<(Seq<T>, int), ReadingError> {
    match r {
        Ok((xs, q)) => Ok((a + xs, q)),
        Err(e) => Err(e),
    }
}

/// Putting a prefix before a list that starts with `x` is putting `prefix + [x]` before the rest.
pub proof fn lemma_after_cons<T>(a: Seq<T>, x: T, r: Result<(Seq<T>, int), ReadingError>)
    ensures
        after(a, cons(x, r)) == after(a.push(x), r),
{
    if let Ok((xs, q)) = r {
        assert(a + (seq![x] + xs) =~= a.push(x) + xs);
    }
}

/// Putting nothing before a read list leaves it as it is.
pub proof fn lemma_after_empty<T>(r: Result<(Seq<T>, int), ReadingError>)
    ensures
        after(Seq::<T>::empty(), r) == r,
{
    if let Ok((xs, q)) = r {
        assert(Seq::<T>::empty() + xs =~= xs);
    }
}

/// An optional field read after its presence flag. The field is read whether or not the
/// flag is set: with the flag set a failed read fails the whole; with it clear the value
/// is dropped, and the position moves past it only if the read succeeded. So a field that
/// a writer leaves out (flag clear, no value) is not read back: the reader takes the bytes
/// that follow for the field's value.
pub open spec fn optional_field<T>(flag: bool, r: Result<(T, int), ReadingError>, p: int) -> Result<(Option<T>, int), ReadingError> {
    if flag {
        match r {
            Ok((v, q)) => Ok((Some(v), q)),
            Err(e) => Err(e),
        }
    } else {
        match r {
            Ok((_, q)) => Ok((None, q)),
            Err(_) => Ok((None, p)),
        }
    }
}

/// The concatenation of byte sequences, in order.
pub open spec fn concat(parts: Seq<Seq<u8>>) -> Seq<u8>
    decreases parts.len(),
{
    if parts.len() == 0 {
        Seq::empty()
    } else {
        parts[0] + concat(parts.drop_first())
    }
}

/// Concatenating one more part appends it.
pub proof fn lemma_concat_push(parts: Seq<Seq<u8>>, last: Seq<u8>)
    ensures
        concat(parts.push(last)) == concat(parts) + last,
    decreases parts.len(),
{
    if parts.len() == 0 {
        assert(parts.push(last).drop_first() =~= Seq::<Seq<u8>>::empty());
        assert(concat(Seq::<Seq<u8>>::empty()) == Seq::<u8>::empty());
        assert(parts.push(last)[0] == last);
        assert(concat(parts.push(last)) =~= last);
    } else {
        assert(parts.push(last).drop_first() =~= parts.drop_first().push(last));
        lemma_concat_push(parts.drop_first(), last);
        assert(concat(parts.push(last)) =~= concat(parts) + last);
    }
}

/// One more part joins the concatenation of a prefix of the parts.
pub proof fn lemma_concat_take(parts: Seq<Seq<u8>>, i: int)
    requires
        0 <= i < parts.len(),
    ensures
        concat(parts.take(i + 1)) == concat(parts.take(i)) + parts[i],
{
    assert(parts.take(i + 1) =~= parts.take(i).push(parts[i]));
    lemma_concat_push(parts.take(i), parts[i]);
}

/// Splitting a window of `s` that holds `x + y` into the windows of `x` and of `y`.
pub proof fn lemma_window_split(s: Seq<u8>, p: int, x: Seq<u8>, y: Seq<u8>)
    requires
        0 <= p,
        p + x.len() + y.len() <= s.len(),
        s.subrange(p, p + x.len() + y.len()) == x + y,
    ensures
        s.subrange(p, p + x.len()) == x,
        s.subrange(p + x.len(), p + x.len() + y.len()) == y,
{
    assert forall|k: int| 0 <= k < x.len() implies s.subrange(p, p + x.len())[k] == x[k] by {
        assert(s.subrange(p, p + x.len() + y.len())[k] == (x + y)[k]);
    }
    assert forall|k: int| 0 <= k < y.len() implies s.subrange(p + x.len(), p + x.len() + y.len())[k] == y[k] by {
        assert(s.subrange(p, p + x.len() + y.len())[x.len() + k] == (x + y)[x.len() + k]);
        assert(s.subrange(p, p + x.len() + y.len())[x.len() + k] == s[p + x.len() + k]);
        assert(s.subrange(p + x.len(), p + x.len() + y.len())[k] == s[p + x.len() + k]);
    }
    assert(s.subrange(p, p + x.len()) =~= x);
    assert(s.subrange(p + x.len(), p + x.len() + y.len()) =~= y);
}

/// The head and tail of a concatenation.
pub proof fn lemma_concat_first(parts: Seq<Seq<u8>>)
    requires
        parts.len() > 0,
    ensures
        concat(parts) == parts[0] + concat(parts.drop_first()),
{
}

} // verus!
