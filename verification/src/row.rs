//! The byte format of a stored row.
//!
//! A row is a list of numbers and a list of byte strings. Its bytes are: the
//! count of numbers, the numbers, the count of byte strings, then each byte
//! string behind its length. Every number is eight bytes, little-endian.
//!
//! The format is stated twice, as a function from rows to bytes
//! ([`row_bytes`]) and as a parser from bytes to rows ([`parse_row`]), and
//! [`lemma_parse_row_bytes`] proves that the parser reads back what the first
//! function wrote.
use vstd::bytes::lemma_auto_spec_u64_to_from_le_bytes;
use vstd::bytes::spec_u64_from_le_bytes;
use vstd::bytes::spec_u64_to_le_bytes;
use vstd::bytes::u64_from_le_bytes;
use vstd::bytes::u64_to_le_bytes;
use vstd::prelude::*;
use vstd::slice::slice_subrange;

verus! {

/// A row as it is handed to and taken from a table.
pub struct Row {
    pub nums: Vec<u64>,
    pub blobs: Vec<Vec<u8>>,
}

/// The mathematical value of a [`Row`].
pub struct RowView {
    pub nums: Seq<u64>,
    pub blobs: Seq<Seq<u8>>,
}

impl View for Row {
    type V = RowView;

    open spec fn view(&self) -> RowView {
        RowView { nums: self.nums@, blobs: Seq::new(self.blobs@.len(), |i: int| self.blobs@[i]@) }
    }
}

/// The eight bytes of a number.
pub open spec fn num_bytes(x: u64) -> Seq<u8> {
    spec_u64_to_le_bytes(x)
}

/// The bytes of a list of numbers, one after the other.
pub open spec fn nums_bytes(nums: Seq<u64>) -> Seq<u8>
    decreases nums.len(),
{
    if nums.len() == 0 {
        Seq::empty()
    } else {
        nums_bytes(nums.drop_last()) + num_bytes(nums.last())
    }
}

/// The bytes of one byte string: its length, then its content.
pub open spec fn blob_bytes(blob: Seq<u8>) -> Seq<u8> {
    num_bytes(blob.len() as u64) + blob
}

/// The bytes of a list of byte strings, one after the other.
pub open spec fn blobs_bytes(blobs: Seq<Seq<u8>>) -> Seq<u8>
    decreases blobs.len(),
{
    if blobs.len() == 0 {
        Seq::empty()
    } else {
        blobs_bytes(blobs.drop_last()) + blob_bytes(blobs.last())
    }
}

/// Every count and length of the row fits the eight bytes it is written in.
pub open spec fn row_fits(r: RowView) -> bool {
    &&& r.nums.len() <= u64::MAX
    &&& r.blobs.len() <= u64::MAX
    &&& forall|i: int| 0 <= i < r.blobs.len() ==> (#[trigger] r.blobs[i]).len() <= u64::MAX
}

/// The bytes of a row.
pub open spec fn row_bytes(r: RowView) -> Seq<u8> {
    num_bytes(r.nums.len() as u64) + nums_bytes(r.nums) + num_bytes(r.blobs.len() as u64)
        + blobs_bytes(r.blobs)
}

/// Reads one number from the front of `s`: the number and what is left.
pub open spec fn take_num(s: Seq<u8>) -> Option<(u64, Seq<u8>)> {
    if s.len() >= 8 {
        Some((spec_u64_from_le_bytes(s.subrange(0, 8)), s.skip(8)))
    } else {
        None
    }
}

/// Reads `n` numbers from the front of `s`.
pub open spec fn take_nums(s: Seq<u8>, n: nat) -> Option<(Seq<u64>, Seq<u8>)>
    decreases n,
{
    if n == 0 {
        Some((Seq::empty(), s))
    } else {
        match take_num(s) {
            None => None,
            Some((x, rest)) => match take_nums(rest, (n - 1) as nat) {
                None => None,
                Some((xs, tail)) => Some((seq![x] + xs, tail)),
            },
        }
    }
}

/// Reads one byte string from the front of `s`.
pub open spec fn take_blob(s: Seq<u8>) -> Option<(Seq<u8>, Seq<u8>)> {
    match take_num(s) {
        None => None,
        Some((len, rest)) => if rest.len() >= len {
            Some((rest.subrange(0, len as int), rest.skip(len as int)))
        } else {
            None
        },
    }
}

/// Reads `n` byte strings from the front of `s`.
pub open spec fn take_blobs(s: Seq<u8>, n: nat) -> Option<(Seq<Seq<u8>>, Seq<u8>)>
    decreases n,
{
    if n == 0 {
        Some((Seq::empty(), s))
    } else {
        match take_blob(s) {
            None => None,
            Some((b, rest)) => match take_blobs(rest, (n - 1) as nat) {
                None => None,
                Some((bs, tail)) => Some((seq![b] + bs, tail)),
            },
        }
    }
}

/// Reads a row from `s`: `None` unless `s` is, from its first byte to its
/// last, the bytes of a row.
pub open spec fn parse_row(s: Seq<u8>) -> Option<RowView> {
    match take_num(s) {
        None => None,
        Some((n, s1)) => match take_nums(s1, n as nat) {
            None => None,
            Some((nums, s2)) => match take_num(s2) {
                None => None,
                Some((m, s3)) => match take_blobs(s3, m as nat) {
                    None => None,
                    Some((blobs, tail)) => if tail.len() == 0 {
                        Some(RowView { nums, blobs })
                    } else {
                        None
                    },
                },
            },
        }
    }
}

/// A number is read back from its bytes, whatever follows them.
pub proof fn lemma_take_num_bytes(x: u64, rest: Seq<u8>)
    ensures
        take_num(num_bytes(x) + rest) == Some((x, rest)),
{
    lemma_auto_spec_u64_to_from_le_bytes();
    let s = num_bytes(x) + rest;
    assert(s.subrange(0, 8) =~= num_bytes(x));
    assert(s.skip(8) =~= rest);
}

/// The bytes of a list of numbers start with the bytes of its first number.
pub proof fn lemma_nums_bytes_front(nums: Seq<u64>)
    requires
        nums.len() > 0,
    ensures
        nums_bytes(nums) =~= num_bytes(nums[0]) + nums_bytes(nums.skip(1)),
    decreases nums.len(),
{
    if nums.len() == 1 {
        assert(nums.drop_last() =~= Seq::<u64>::empty());
        assert(nums.skip(1) =~= Seq::<u64>::empty());
        assert(nums_bytes(nums.drop_last()) =~= Seq::<u8>::empty());
        assert(nums_bytes(nums.skip(1)) =~= Seq::<u8>::empty());
    } else {
        lemma_nums_bytes_front(nums.drop_last());
        assert(nums.drop_last().skip(1) =~= nums.skip(1).drop_last());
        assert(nums.drop_last()[0] == nums[0]);
        assert(nums.skip(1).last() == nums.last());
    }
}

/// A list of numbers is read back from its bytes, whatever follows them.
pub proof fn lemma_take_nums_bytes(nums: Seq<u64>, rest: Seq<u8>)
    ensures
        take_nums(nums_bytes(nums) + rest, nums.len()) == Some((nums, rest)),
    decreases nums.len(),
{
    if nums.len() == 0 {
        assert(nums_bytes(nums) + rest =~= rest);
        assert(nums =~= Seq::<u64>::empty());
    } else {
        let tail = nums.skip(1);
        lemma_nums_bytes_front(nums);
        let after = nums_bytes(tail) + rest;
        assert(nums_bytes(nums) + rest =~= num_bytes(nums[0]) + after);
        lemma_take_num_bytes(nums[0], after);
        lemma_take_nums_bytes(tail, rest);
        assert(seq![nums[0]] + tail =~= nums);
    }
}

/// A byte string is read back from its bytes, whatever follows them.
pub proof fn lemma_take_blob_bytes(blob: Seq<u8>, rest: Seq<u8>)
    requires
        blob.len() <= u64::MAX,
    ensures
        take_blob(blob_bytes(blob) + rest) == Some((blob, rest)),
{
    let after = blob + rest;
    assert(blob_bytes(blob) + rest =~= num_bytes(blob.len() as u64) + after);
    lemma_take_num_bytes(blob.len() as u64, after);
    assert(after.subrange(0, blob.len() as int) =~= blob);
    assert(after.skip(blob.len() as int) =~= rest);
}

/// The bytes of a list of byte strings start with the bytes of its first.
pub proof fn lemma_blobs_bytes_front(blobs: Seq<Seq<u8>>)
    requires
        blobs.len() > 0,
    ensures
        blobs_bytes(blobs) =~= blob_bytes(blobs[0]) + blobs_bytes(blobs.skip(1)),
    decreases blobs.len(),
{
    if blobs.len() == 1 {
        assert(blobs.drop_last() =~= Seq::<Seq<u8>>::empty());
        assert(blobs.skip(1) =~= Seq::<Seq<u8>>::empty());
        assert(blobs_bytes(blobs.drop_last()) =~= Seq::<u8>::empty());
        assert(blobs_bytes(blobs.skip(1)) =~= Seq::<u8>::empty());
    } else {
        lemma_blobs_bytes_front(blobs.drop_last());
        assert(blobs.drop_last().skip(1) =~= blobs.skip(1).drop_last());
        assert(blobs.drop_last()[0] == blobs[0]);
        assert(blobs.skip(1).last() == blobs.last());
    }
}

/// A list of byte strings is read back from its bytes, whatever follows them.
pub proof fn lemma_take_blobs_bytes(blobs: Seq<Seq<u8>>, rest: Seq<u8>)
    requires
        forall|i: int| 0 <= i < blobs.len() ==> (#[trigger] blobs[i]).len() <= u64::MAX,
    ensures
        take_blobs(blobs_bytes(blobs) + rest, blobs.len()) == Some((blobs, rest)),
    decreases blobs.len(),
{
    if blobs.len() == 0 {
        assert(blobs_bytes(blobs) + rest =~= rest);
        assert(blobs =~= Seq::<Seq<u8>>::empty());
    } else {
        let tail = blobs.skip(1);
        lemma_blobs_bytes_front(blobs);
        let after = blobs_bytes(tail) + rest;
        assert(blobs_bytes(blobs) + rest =~= blob_bytes(blobs[0]) + after);
        lemma_take_blob_bytes(blobs[0], after);
        assert forall|i: int| 0 <= i < tail.len() implies (#[trigger] tail[i]).len()
            <= u64::MAX by {
            assert(tail[i] == blobs[i + 1]);
        }
        lemma_take_blobs_bytes(tail, rest);
        assert(seq![blobs[0]] + tail =~= blobs);
    }
}

/// The parser reads back the row that [`row_bytes`] wrote.
pub proof fn lemma_parse_row_bytes(r: RowView)
    requires
        row_fits(r),
    ensures
        parse_row(row_bytes(r)) == Some(r),
{
    let n = r.nums.len() as u64;
    let m = r.blobs.len() as u64;
    let s3 = blobs_bytes(r.blobs);
    let s2 = num_bytes(m) + s3;
    let s1 = nums_bytes(r.nums) + s2;
    assert(row_bytes(r) =~= num_bytes(n) + s1);
    lemma_take_num_bytes(n, s1);
    lemma_take_nums_bytes(r.nums, s2);
    lemma_take_num_bytes(m, s3);
    assert(s3 =~= s3 + Seq::<u8>::empty());
    lemma_take_blobs_bytes(r.blobs, Seq::<u8>::empty());
}

/// What is read from the front of `s` as a number is, in bytes, the front
/// of `s`.
pub proof fn lemma_take_num_canonical(s: Seq<u8>)
    requires
        take_num(s) is Some,
    ensures
        s == num_bytes(take_num(s).unwrap().0) + take_num(s).unwrap().1,
{
    lemma_auto_spec_u64_to_from_le_bytes();
    let front = s.subrange(0, 8);
    assert(spec_u64_to_le_bytes(spec_u64_from_le_bytes(front)) == front);
    assert(s =~= front + s.skip(8));
}

/// What is read from the front of `s` as `n` numbers is, in bytes, the front
/// of `s`.
pub proof fn lemma_take_nums_canonical(s: Seq<u8>, n: nat)
    requires
        take_nums(s, n) is Some,
    ensures
        take_nums(s, n).unwrap().0.len() == n,
        s == nums_bytes(take_nums(s, n).unwrap().0) + take_nums(s, n).unwrap().1,
    decreases n,
{
    if n == 0 {
        assert(s =~= Seq::<u8>::empty() + s);
    } else {
        let (x, rest) = take_num(s).unwrap();
        let (xs, tail) = take_nums(rest, (n - 1) as nat).unwrap();
        lemma_take_num_canonical(s);
        lemma_take_nums_canonical(rest, (n - 1) as nat);
        let all = seq![x] + xs;
        lemma_nums_bytes_front(all);
        assert(all.skip(1) =~= xs);
        assert(s =~= nums_bytes(all) + tail);
    }
}

/// What is read from the front of `s` as a byte string is, in bytes, the
/// front of `s`.
pub proof fn lemma_take_blob_canonical(s: Seq<u8>)
    requires
        take_blob(s) is Some,
    ensures
        take_blob(s).unwrap().0.len() <= u64::MAX,
        s == blob_bytes(take_blob(s).unwrap().0) + take_blob(s).unwrap().1,
{
    lemma_take_num_canonical(s);
    let (len, rest) = take_num(s).unwrap();
    let blob = rest.subrange(0, len as int);
    assert(rest =~= blob + rest.skip(len as int));
    assert(s =~= blob_bytes(blob) + rest.skip(len as int));
}

/// What is read from the front of `s` as `n` byte strings is, in bytes, the
/// front of `s`.
pub proof fn lemma_take_blobs_canonical(s: Seq<u8>, n: nat)
    requires
        take_blobs(s, n) is Some,
    ensures
        take_blobs(s, n).unwrap().0.len() == n,
        s == blobs_bytes(take_blobs(s, n).unwrap().0) + take_blobs(s, n).unwrap().1,
    decreases n,
{
    if n == 0 {
        assert(s =~= Seq::<u8>::empty() + s);
    } else {
        let (b, rest) = take_blob(s).unwrap();
        let (bs, tail) = take_blobs(rest, (n - 1) as nat).unwrap();
        lemma_take_blob_canonical(s);
        lemma_take_blobs_canonical(rest, (n - 1) as nat);
        let all = seq![b] + bs;
        lemma_blobs_bytes_front(all);
        assert(all.skip(1) =~= bs);
        assert(s =~= blobs_bytes(all) + tail);
    }
}

/// The bytes that the parser reads a row from are the bytes of that row:
/// no other bytes read as it.
pub proof fn lemma_parse_row_canonical(s: Seq<u8>)
    requires
        parse_row(s) is Some,
    ensures
        row_bytes(parse_row(s).unwrap()) == s,
{
    let (n, s1) = take_num(s).unwrap();
    let (nums, s2) = take_nums(s1, n as nat).unwrap();
    let (m, s3) = take_num(s2).unwrap();
    let (blobs, tail) = take_blobs(s3, m as nat).unwrap();
    lemma_take_num_canonical(s);
    lemma_take_nums_canonical(s1, n as nat);
    lemma_take_num_canonical(s2);
    lemma_take_blobs_canonical(s3, m as nat);
    assert(tail =~= Seq::<u8>::empty());
    assert(s =~= row_bytes(RowView { nums, blobs }));
}

/// The length of the bytes of a list of byte strings.
pub open spec fn blobs_size(blobs: Seq<Seq<u8>>) -> nat
    decreases blobs.len(),
{
    if blobs.len() == 0 {
        0
    } else {
        blobs_size(blobs.drop_last()) + 8 + blobs.last().len()
    }
}

/// The length of the bytes of a row: it depends on how many numbers the row
/// has and on how long its byte strings are, and on nothing else.
pub open spec fn row_size(r: RowView) -> nat {
    16 + 8 * r.nums.len() + blobs_size(r.blobs)
}

/// The bytes of a list of numbers are eight for each number.
pub proof fn lemma_nums_bytes_len(nums: Seq<u64>)
    ensures
        nums_bytes(nums).len() == 8 * nums.len(),
    decreases nums.len(),
{
    lemma_auto_spec_u64_to_from_le_bytes();
    if nums.len() > 0 {
        lemma_nums_bytes_len(nums.drop_last());
    }
}

/// The bytes of a list of byte strings are as many as [`blobs_size`] says.
pub proof fn lemma_blobs_bytes_len(blobs: Seq<Seq<u8>>)
    ensures
        blobs_bytes(blobs).len() == blobs_size(blobs),
    decreases blobs.len(),
{
    lemma_auto_spec_u64_to_from_le_bytes();
    if blobs.len() > 0 {
        lemma_blobs_bytes_len(blobs.drop_last());
    }
}

/// The bytes of a row are as many as [`row_size`] says.
pub proof fn lemma_row_bytes_len(r: RowView)
    ensures
        row_bytes(r).len() == row_size(r),
{
    lemma_auto_spec_u64_to_from_le_bytes();
    lemma_nums_bytes_len(r.nums);
    lemma_blobs_bytes_len(r.blobs);
}

/// Two rows have as many numbers, as many byte strings, and byte strings of
/// the same lengths.
pub open spec fn same_shape(a: RowView, b: RowView) -> bool {
    &&& a.nums.len() == b.nums.len()
    &&& a.blobs.len() == b.blobs.len()
    &&& forall|i: int| 0 <= i < a.blobs.len() ==> (#[trigger] a.blobs[i]).len() == b.blobs[i].len()
}

/// Lists of byte strings of the same lengths have bytes of the same length.
pub proof fn lemma_blobs_size_by_lengths(a: Seq<Seq<u8>>, b: Seq<Seq<u8>>)
    requires
        a.len() == b.len(),
        forall|i: int| 0 <= i < a.len() ==> (#[trigger] a[i]).len() == b[i].len(),
    ensures
        blobs_size(a) == blobs_size(b),
    decreases a.len(),
{
    if a.len() > 0 {
        assert forall|i: int| 0 <= i < a.drop_last().len() implies (#[trigger] a.drop_last()[i]).len()
            == b.drop_last()[i].len() by {
            assert(a.drop_last()[i] == a[i]);
        }
        lemma_blobs_size_by_lengths(a.drop_last(), b.drop_last());
        assert(a.last() == a[a.len() - 1]);
    }
}

/// Rows of the same shape have bytes of the same length.
pub proof fn lemma_same_shape_same_len(a: RowView, b: RowView)
    requires
        same_shape(a, b),
    ensures
        row_bytes(a).len() == row_bytes(b).len(),
{
    lemma_row_bytes_len(a);
    lemma_row_bytes_len(b);
    lemma_blobs_size_by_lengths(a.blobs, b.blobs);
}

/// Appends the eight bytes of `x` to `out`.
pub fn put_num(out: &mut Vec<u8>, x: u64)
    ensures
        final(out)@ == old(out)@ + num_bytes(x),
{
    let mut bytes = u64_to_le_bytes(x);
    out.append(&mut bytes);
}

/// Appends the bytes of `blob` to `out`, as they are.
pub fn put_raw(out: &mut Vec<u8>, blob: &Vec<u8>)
    ensures
        final(out)@ == old(out)@ + blob@,
{
    let n = blob.len();
    let mut i: usize = 0;
    while i < n
        invariant
            n == blob@.len(),
            0 <= i <= n,
            out@ == old(out)@ + blob@.take(i as int),
        decreases n - i,
    {
        out.push(blob[i]);
        i += 1;
        assert(blob@.take(i as int) =~= blob@.take(i - 1).push(blob@[i - 1]));
        assert(out@ =~= old(out)@ + blob@.take(i as int));
    }
    assert(blob@.take(n as int) =~= blob@);
}

/// Appends one byte string to `out`: its length, then its content.
pub fn put_blob(out: &mut Vec<u8>, blob: &Vec<u8>)
    ensures
        final(out)@ == old(out)@ + blob_bytes(blob@),
{
    put_num(out, blob.len() as u64);
    put_raw(out, blob);
    assert(out@ =~= old(out)@ + blob_bytes(blob@));
}

/// Reads the number that starts at `pos`.
pub fn read_num(buf: &Vec<u8>, pos: usize) -> (r: Option<(u64, usize)>)
    requires
        pos <= buf@.len(),
    ensures
        r is Some <==> take_num(buf@.skip(pos as int)) is Some,
        r is Some ==> r.unwrap().0 == take_num(buf@.skip(pos as int)).unwrap().0,
        r is Some ==> r.unwrap().1 == pos + 8 && pos + 8 <= buf@.len(),
        r is Some ==> take_num(buf@.skip(pos as int)).unwrap().1 == buf@.skip(pos + 8),
{
    if buf.len() - pos < 8 {
        return None;
    }
    let x = u64_from_le_bytes(slice_subrange(buf.as_slice(), pos, pos + 8));
    assert(buf@.skip(pos as int).subrange(0, 8) =~= buf@.subrange(pos as int, pos + 8));
    assert(buf@.skip(pos as int).skip(8) =~= buf@.skip(pos + 8));
    Some((x, pos + 8))
}

/// Reads the byte string that starts at `pos`.
pub fn read_blob(buf: &Vec<u8>, pos: usize) -> (r: Option<(Vec<u8>, usize)>)
    requires
        pos <= buf@.len(),
    ensures
        r is Some <==> take_blob(buf@.skip(pos as int)) is Some,
        r is Some ==> r.unwrap().0@ == take_blob(buf@.skip(pos as int)).unwrap().0,
        r is Some ==> pos <= r.unwrap().1 <= buf@.len(),
        r is Some ==> take_blob(buf@.skip(pos as int)).unwrap().1 == buf@.skip(
            r.unwrap().1 as int,
        ),
{
    let (len, start) = match read_num(buf, pos) {
        None => { return None; },
        Some(p) => p,
    };
    if ((buf.len() - start) as u64) < len {
        return None;
    }
    let n = len as usize;
    let mut blob: Vec<u8> = Vec::new();
    let mut i: usize = 0;
    while i < n
        invariant
            start + n <= buf@.len() <= usize::MAX,
            0 <= i <= n,
            blob@ == buf@.subrange(start as int, start + i),
        decreases n - i,
    {
        blob.push(buf[start + i]);
        i += 1;
        assert(blob@ =~= buf@.subrange(start as int, start + i));
    }
    assert(buf@.skip(start as int).subrange(0, n as int) =~= blob@);
    assert(buf@.skip(start as int).skip(n as int) =~= buf@.skip(start + n));
    Some((blob, start + n))
}

/// Reads the `n` numbers that start at `pos`.
pub fn read_nums(buf: &Vec<u8>, pos: usize, n: u64) -> (r: Option<(Vec<u64>, usize)>)
    requires
        pos <= buf@.len(),
    ensures
        r is Some <==> take_nums(buf@.skip(pos as int), n as nat) is Some,
        r is Some ==> r.unwrap().0@ == take_nums(buf@.skip(pos as int), n as nat).unwrap().0,
        r is Some ==> pos <= r.unwrap().1 <= buf@.len(),
        r is Some ==> take_nums(buf@.skip(pos as int), n as nat).unwrap().1 == buf@.skip(
            r.unwrap().1 as int,
        ),
{
    let ghost whole = take_nums(buf@.skip(pos as int), n as nat);
    let mut at = pos;
    let mut nums: Vec<u64> = Vec::new();
    let mut i: u64 = 0;
    assert(Seq::<u64>::empty() + Seq::<u64>::empty() =~= Seq::<u64>::empty());
    while i < n
        invariant
            0 <= i <= n,
            pos <= at <= buf@.len(),
            whole == take_nums(buf@.skip(pos as int), n as nat),
            whole == match take_nums(buf@.skip(at as int), (n - i) as nat) {
                Some((xs, tail)) => Some((nums@ + xs, tail)),
                None => None,
            },
        decreases n - i,
    {
        match read_num(buf, at) {
            None => { return None; },
            Some((x, next)) => {
                proof {
                    let after = buf@.skip(next as int);
                    match take_nums(after, (n - i - 1) as nat) {
                        Some((xs, tail)) => {
                            assert(nums@ + (seq![x] + xs) =~= nums@.push(x) + xs);
                        },
                        None => {},
                    }
                }
                nums.push(x);
                at = next;
                i += 1;
            },
        }
    }
    assert(nums@ + Seq::<u64>::empty() =~= nums@);
    Some((nums, at))
}

/// The views of a list of byte strings.
pub open spec fn blob_views(blobs: Seq<Vec<u8>>) -> Seq<Seq<u8>> {
    Seq::new(blobs.len(), |i: int| blobs[i]@)
}

/// Reads the `n` byte strings that start at `pos`.
pub fn read_blobs(buf: &Vec<u8>, pos: usize, n: u64) -> (r: Option<(Vec<Vec<u8>>, usize)>)
    requires
        pos <= buf@.len(),
    ensures
        r is Some <==> take_blobs(buf@.skip(pos as int), n as nat) is Some,
        r is Some ==> blob_views(r.unwrap().0@) == take_blobs(
            buf@.skip(pos as int),
            n as nat,
        ).unwrap().0,
        r is Some ==> pos <= r.unwrap().1 <= buf@.len(),
        r is Some ==> take_blobs(buf@.skip(pos as int), n as nat).unwrap().1 == buf@.skip(
            r.unwrap().1 as int,
        ),
{
    let ghost whole = take_blobs(buf@.skip(pos as int), n as nat);
    let mut at = pos;
    let mut blobs: Vec<Vec<u8>> = Vec::new();
    let mut i: u64 = 0;
    assert(blob_views(blobs@) =~= Seq::<Seq<u8>>::empty());
    assert(Seq::<Seq<u8>>::empty() + Seq::<Seq<u8>>::empty() =~= Seq::<Seq<u8>>::empty());
    while i < n
        invariant
            0 <= i <= n,
            pos <= at <= buf@.len(),
            whole == take_blobs(buf@.skip(pos as int), n as nat),
            whole == match take_blobs(buf@.skip(at as int), (n - i) as nat) {
                Some((bs, tail)) => Some((blob_views(blobs@) + bs, tail)),
                None => None,
            },
        decreases n - i,
    {
        match read_blob(buf, at) {
            None => { return None; },
            Some((b, next)) => {
                let ghost views = blob_views(blobs@);
                proof {
                    let after = buf@.skip(next as int);
                    match take_blobs(after, (n - i - 1) as nat) {
                        Some((bs, tail)) => {
                            assert(views + (seq![b@] + bs) =~= views.push(b@) + bs);
                        },
                        None => {},
                    }
                }
                blobs.push(b);
                assert(blob_views(blobs@) =~= views.push(b@));
                at = next;
                i += 1;
            },
        }
    }
    assert(blob_views(blobs@) + Seq::<Seq<u8>>::empty() =~= blob_views(blobs@));
    Some((blobs, at))
}

impl Row {
    /// The bytes of this row; the parser reads the row back from them.
    pub fn encode(&self) -> (out: Vec<u8>)
        ensures
            out@ == row_bytes(self@),
            parse_row(out@) == Some(self@),
    {
        let mut out: Vec<u8> = Vec::new();
        put_num(&mut out, self.nums.len() as u64);
        let ghost head = out@;
        let n = self.nums.len();
        let mut i: usize = 0;
        assert(head =~= head + nums_bytes(self.nums@.take(0)));
        while i < n
            invariant
                n == self.nums@.len(),
                0 <= i <= n,
                out@ == head + nums_bytes(self.nums@.take(i as int)),
            decreases n - i,
        {
            put_num(&mut out, self.nums[i]);
            i += 1;
            assert(self.nums@.take(i as int).drop_last() =~= self.nums@.take(i - 1));
            assert(out@ =~= head + nums_bytes(self.nums@.take(i as int)));
        }
        assert(self.nums@.take(n as int) =~= self.nums@);
        put_num(&mut out, self.blobs.len() as u64);
        let ghost mid = out@;
        let m = self.blobs.len();
        let mut j: usize = 0;
        assert(mid =~= mid + blobs_bytes(self@.blobs.take(0)));
        while j < m
            invariant
                m == self.blobs@.len(),
                0 <= j <= m,
                out@ == mid + blobs_bytes(self@.blobs.take(j as int)),
            decreases m - j,
        {
            put_blob(&mut out, &self.blobs[j]);
            j += 1;
            assert(self@.blobs.take(j as int).drop_last() =~= self@.blobs.take(j - 1));
            assert(out@ =~= mid + blobs_bytes(self@.blobs.take(j as int)));
        }
        assert(self@.blobs.take(m as int) =~= self@.blobs);
        proof {
            assert forall|k: int| 0 <= k < self@.blobs.len() implies (#[trigger] self@.blobs[k]).len()
                <= u64::MAX by {
                assert(self@.blobs[k].len() == self.blobs@[k].len());
            }
            lemma_parse_row_bytes(self@);
        }
        out
    }

    /// Reads a row from `buf`: `Some` exactly when `buf` holds the bytes of a
    /// row and nothing else.
    pub fn decode(buf: &Vec<u8>) -> (r: Option<Row>)
        ensures
            match r {
                Some(row) => parse_row(buf@) == Some(row@),
                None => parse_row(buf@) is None,
            },
    {
        assert(buf@.skip(0) =~= buf@);
        let (n, at_nums) = match read_num(buf, 0) {
            None => { return None; },
            Some(p) => p,
        };
        let (nums, at_count) = match read_nums(buf, at_nums, n) {
            None => { return None; },
            Some(p) => p,
        };
        let (m, at_blobs) = match read_num(buf, at_count) {
            None => { return None; },
            Some(p) => p,
        };
        let (blobs, end) = match read_blobs(buf, at_blobs, m) {
            None => { return None; },
            Some(p) => p,
        };
        if end != buf.len() {
            return None;
        }
        let row = Row { nums, blobs };
        assert(row@.blobs =~= blob_views(blobs@));
        Some(row)
    }
}

} // verus!
