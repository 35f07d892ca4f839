//! Names of room files: `room_<digits>.json`. Which names count, what index
//! a name carries, and which name to give the next room.

use vstd::prelude::*;

verus! {

/// True for the bytes `0` to `9`.
pub open spec fn is_digit(b: u8) -> bool {
    48 <= b <= 57
}

/// The bytes of `room_`.
pub open spec fn name_prefix() -> Seq<u8> {
    seq![114u8, 111u8, 111u8, 109u8, 95u8]
}

/// The bytes of `.json`.
pub open spec fn name_suffix() -> Seq<u8> {
    seq![46u8, 106u8, 115u8, 111u8, 110u8]
}

/// What stands between the prefix and the suffix of a name.
pub open spec fn name_digits(name: Seq<u8>) -> Seq<u8> {
    name.subrange(5, name.len() - 5)
}

/// True for a name made of `room_`, one or more digits, and `.json`.
pub open spec fn is_room_name(name: Seq<u8>) -> bool {
    &&& name.len() >= 11
    &&& name.subrange(0, 5) == name_prefix()
    &&& name.subrange(name.len() - 5, name.len() as int) == name_suffix()
    &&& forall|i: int| 5 <= i < name.len() - 5 ==> is_digit(#[trigger] name[i])
}

/// The value of a byte as a decimal digit; zero for any other byte.
pub open spec fn digit_value(b: u8) -> nat {
    if is_digit(b) {
        (b - 48) as nat
    } else {
        0
    }
}

/// The number that a string of decimal digits writes.
pub open spec fn decimal_value(digits: Seq<u8>) -> nat
    decreases digits.len(),
{
    if digits.len() == 0 {
        0
    } else {
        decimal_value(digits.drop_last()) * 10 + digit_value(digits.last())
    }
}

/// The number of digits that `n` takes when written without leading zeros.
pub open spec fn digit_count(n: nat) -> nat
    decreases n,
{
    if n < 10 {
        1
    } else {
        1 + digit_count(n / 10)
    }
}

/// The number written by the first `k` digits is no larger than the number
/// written by all of them.
pub proof fn lemma_decimal_prefix(digits: Seq<u8>, k: int)
    requires
        0 <= k <= digits.len(),
    ensures
        decimal_value(digits.subrange(0, k)) <= decimal_value(digits),
    decreases digits.len() - k,
{
    if k < digits.len() {
        lemma_decimal_prefix(digits.drop_last(), k);
        assert(digits.drop_last().subrange(0, k) =~= digits.subrange(0, k));
    } else {
        assert(digits.subrange(0, k) =~= digits);
    }
}

/// The index that a room file's name carries: the number between `room_`
/// and `.json`. Nothing for any other name, and for a number too large for
/// the machine word.
pub fn room_file_index(name: &Vec<u8>) -> (r: Option<u64>)
    ensures
        r.is_some() == (is_room_name(name@) && decimal_value(name_digits(name@)) <= u64::MAX),
        r.is_some() ==> r.unwrap() == decimal_value(name_digits(name@)),
{
    let n = name.len();
    if n < 11 {
        return None;
    }
    if name[0] != 114 || name[1] != 111 || name[2] != 111 || name[3] != 109 || name[4] != 95 {
        assert(name@.subrange(0, 5)[0] == name@[0]);
        assert(name@.subrange(0, 5)[1] == name@[1]);
        assert(name@.subrange(0, 5)[2] == name@[2]);
        assert(name@.subrange(0, 5)[3] == name@[3]);
        assert(name@.subrange(0, 5)[4] == name@[4]);
        return None;
    }
    if name[n - 5] != 46 || name[n - 4] != 106 || name[n - 3] != 115 || name[n - 2] != 111 || name[n
        - 1] != 110 {
        assert(name@.subrange(n - 5, n as int)[0] == name@[n - 5]);
        assert(name@.subrange(n - 5, n as int)[1] == name@[n - 4]);
        assert(name@.subrange(n - 5, n as int)[2] == name@[n - 3]);
        assert(name@.subrange(n - 5, n as int)[3] == name@[n - 2]);
        assert(name@.subrange(n - 5, n as int)[4] == name@[n - 1]);
        return None;
    }
    assert(name@.subrange(0, 5) =~= name_prefix());
    assert(name@.subrange(n - 5, n as int) =~= name_suffix());
    let ghost digits = name_digits(name@);
    let mut acc: u64 = 0;
    let mut i: usize = 5;
    assert(digits.subrange(0, 0) =~= Seq::<u8>::empty());
    while i < n - 5
        invariant
            n == name@.len(),
            n >= 11,
            5 <= i <= n - 5,
            digits == name_digits(name@),
            forall|k: int| 5 <= k < i ==> is_digit(#[trigger] name@[k]),
            acc == decimal_value(digits.subrange(0, i - 5)),
        decreases n - i,
    {
        let b = name[i];
        if b < 48 || b > 57 {
            return None;
        }
        let d: u64 = (b - 48) as u64;
        proof {
            let next = digits.subrange(0, i - 5 + 1);
            assert(next.drop_last() =~= digits.subrange(0, i - 5));
            assert(next.last() == b);
            assert(decimal_value(next) == acc * 10 + d);
            lemma_decimal_prefix(digits, i - 5 + 1);
        }
        if acc > (u64::MAX - d) / 10 {
            return None;
        }
        acc = acc * 10 + d;
        i += 1;
    }
    assert(digits.subrange(0, n - 10) =~= digits);
    Some(acc)
}

/// Tells whether a name is made of `room_`, one or more digits, and `.json`.
pub fn is_room_file_name(name: &Vec<u8>) -> (r: bool)
    ensures
        r == is_room_name(name@),
{
    let n = name.len();
    if n < 11 {
        return false;
    }
    if name[0] != 114 || name[1] != 111 || name[2] != 111 || name[3] != 109 || name[4] != 95 {
        assert(name@.subrange(0, 5)[0] == name@[0]);
        assert(name@.subrange(0, 5)[1] == name@[1]);
        assert(name@.subrange(0, 5)[2] == name@[2]);
        assert(name@.subrange(0, 5)[3] == name@[3]);
        assert(name@.subrange(0, 5)[4] == name@[4]);
        return false;
    }
    if name[n - 5] != 46 || name[n - 4] != 106 || name[n - 3] != 115 || name[n - 2] != 111 || name[n
        - 1] != 110 {
        assert(name@.subrange(n - 5, n as int)[0] == name@[n - 5]);
        assert(name@.subrange(n - 5, n as int)[1] == name@[n - 4]);
        assert(name@.subrange(n - 5, n as int)[2] == name@[n - 3]);
        assert(name@.subrange(n - 5, n as int)[3] == name@[n - 2]);
        assert(name@.subrange(n - 5, n as int)[4] == name@[n - 1]);
        return false;
    }
    assert(name@.subrange(0, 5) =~= name_prefix());
    assert(name@.subrange(n - 5, n as int) =~= name_suffix());
    let mut i: usize = 5;
    while i < n - 5
        invariant
            n == name@.len(),
            n >= 11,
            5 <= i <= n - 5,
            forall|k: int| 5 <= k < i ==> is_digit(#[trigger] name@[k]),
        decreases n - i,
    {
        let b = name[i];
        if b < 48 || b > 57 {
            return false;
        }
        i += 1;
    }
    true
}

/// The largest index carried by a room name among the first `n` names, and
/// -1 if none of them is a room name.
pub open spec fn max_index(names: Seq<Seq<u8>>, n: int) -> int
    decreases n,
{
    if n <= 0 {
        -1
    } else {
        let rest = max_index(names, n - 1);
        let name = names[n - 1];
        if is_room_name(name) && decimal_value(name_digits(name)) > rest {
            decimal_value(name_digits(name)) as int
        } else {
            rest
        }
    }
}

/// The largest number of digits in a room name among the first `n` names,
/// and 0 if none of them is a room name.
pub open spec fn max_width(names: Seq<Seq<u8>>, n: int) -> int
    decreases n,
{
    if n <= 0 {
        0
    } else {
        let rest = max_width(names, n - 1);
        let name = names[n - 1];
        if is_room_name(name) && name_digits(name).len() > rest {
            name_digits(name).len() as int
        } else {
            rest
        }
    }
}

/// The largest index never gets smaller when more names are looked at.
pub proof fn lemma_max_index_grows(names: Seq<Seq<u8>>, k: int, n: int)
    requires
        k <= n,
    ensures
        max_index(names, k) <= max_index(names, n),
        -1 <= max_index(names, k),
    decreases n - k,
{
    if k < n {
        lemma_max_index_grows(names, k, n - 1);
    }
    if k > 0 {
        lemma_max_index_floor(names, k);
    }
}

proof fn lemma_max_index_floor(names: Seq<Seq<u8>>, k: int)
    ensures
        -1 <= max_index(names, k),
    decreases k,
{
    if k > 0 {
        lemma_max_index_floor(names, k - 1);
    }
}

/// The digits of `n`, most significant first, with zeros in front so that
/// there are at least `width` of them, and at least one.
pub open spec fn decimal_digits(n: nat, width: nat) -> Seq<u8>
    decreases n, width,
{
    if n >= 10 || width > 1 {
        decimal_digits(n / 10, if width > 0 { (width - 1) as nat } else { 0 }).push((48 + n % 10) as u8)
    } else {
        seq![(48 + n) as u8]
    }
}

/// `decimal_digits` writes `n` in digits only, in as many digits as `n`
/// needs or `width` asks for, whichever is more.
pub proof fn lemma_decimal_digits(n: nat, width: nat)
    ensures
        decimal_value(decimal_digits(n, width)) == n,
        decimal_digits(n, width).len() == (if digit_count(n) > width { digit_count(n) } else { width }),
        forall|i: int| 0 <= i < decimal_digits(n, width).len() ==> is_digit(#[trigger] decimal_digits(n, width)[i]),
    decreases n, width,
{
    if n >= 10 || width > 1 {
        let w: nat = if width > 0 { (width - 1) as nat } else { 0 };
        lemma_decimal_digits(n / 10, w);
        let rest = decimal_digits(n / 10, w);
        let all = rest.push((48 + n % 10) as u8);
        assert(all.drop_last() =~= rest);
        assert(all.last() == (48 + n % 10) as u8);
        assert(decimal_value(all) == decimal_value(rest) * 10 + n % 10);
        if n < 10 {
            assert(n / 10 == 0);
            assert(digit_count(0) == 1);
        }
    } else {
        let one = seq![(48 + n) as u8];
        assert(one.drop_last() =~= Seq::<u8>::empty());
        assert(decimal_value(one.drop_last()) == 0);
    }
}

/// Appends the digits of `n` to `out`, with zeros in front so that at least
/// `width` digits are written.
pub fn push_decimal(n: u64, width: usize, out: &mut Vec<u8>)
    ensures
        final(out)@ == old(out)@ + decimal_digits(n as nat, width as nat),
    decreases n, width,
{
    if n >= 10 || width > 1 {
        let w: usize = if width > 0 { width - 1 } else { 0 };
        push_decimal(n / 10, w, out);
        out.push(48 + (n % 10) as u8);
        assert(out@ =~= old(out)@ + decimal_digits(n as nat, width as nat));
    } else {
        out.push(48 + n as u8);
        assert(out@ =~= old(out)@ + decimal_digits(n as nat, width as nat));
    }
}

/// The name of the room file with index `index`, its digits filled up with
/// zeros to `width`.
pub open spec fn room_name(index: nat, width: nat) -> Seq<u8> {
    name_prefix() + decimal_digits(index, width) + name_suffix()
}

/// A name made by `room_name` is a room name that carries the index.
pub proof fn lemma_room_name(index: nat, width: nat)
    ensures
        is_room_name(room_name(index, width)),
        name_digits(room_name(index, width)) == decimal_digits(index, width),
        decimal_value(name_digits(room_name(index, width))) == index,
{
    lemma_decimal_digits(index, width);
    let d = decimal_digits(index, width);
    let name = room_name(index, width);
    assert(name.len() == d.len() + 10);
    assert(name.subrange(0, 5) =~= name_prefix());
    assert(name.subrange(name.len() - 5, name.len() as int) =~= name_suffix());
    assert(name_digits(name) =~= d);
    assert forall|i: int| 5 <= i < name.len() - 5 implies is_digit(#[trigger] name[i]) by {
        assert(name[i] == d[i - 5]);
    }
}

/// The name for the next room file in a folder with the files `names`: its
/// index is one more than the largest index there is (0 in a folder
/// without room files), written with as many digits as the longest room
/// name has. Nothing if that index does not fit the machine word.
pub fn next_room_name(names: &Vec<Vec<u8>>) -> (r: Option<Vec<u8>>)
    ensures
        r.is_some() == (max_index(names.deep_view(), names@.len() as int) < u64::MAX),
        r.is_some() ==> r.unwrap()@ == room_name(
            (max_index(names.deep_view(), names@.len() as int) + 1) as nat,
            max_width(names.deep_view(), names@.len() as int) as nat,
        ),
        r.is_some() ==> is_room_name(r.unwrap()@) && decimal_value(name_digits(r.unwrap()@))
            == max_index(names.deep_view(), names@.len() as int) + 1,
{
    let ghost all = names.deep_view();
    let n = names.len();
    let mut any = false;
    let mut top: u64 = 0;
    let mut width: usize = 0;
    let mut i: usize = 0;
    while i < n
        invariant
            n == names@.len(),
            all == names.deep_view(),
            i <= n,
            max_index(all, i as int) == (if any { top as int } else { -1 }),
            max_width(all, i as int) == width,
        decreases n - i,
    {
        let name = &names[i];
        assert(all[i as int] == name@);
        if is_room_file_name(name) {
            match room_file_index(name) {
                Some(v) => {
                    if !any || v > top {
                        top = v;
                        any = true;
                    }
                },
                None => {
                    proof {
                        lemma_max_index_grows(all, i + 1, n as int);
                    }
                    return None;
                },
            }
            if name.len() - 10 > width {
                width = name.len() - 10;
            }
        }
        i += 1;
    }
    if any && top == u64::MAX {
        return None;
    }
    let next: u64 = if any { top + 1 } else { 0 };
    let mut out: Vec<u8> = Vec::new();
    out.push(114);
    out.push(111);
    out.push(111);
    out.push(109);
    out.push(95);
    assert(out@ =~= name_prefix());
    push_decimal(next, width, &mut out);
    out.push(46);
    out.push(106);
    out.push(115);
    out.push(111);
    out.push(110);
    assert(out@ =~= room_name(next as nat, width as nat));
    proof {
        lemma_room_name(next as nat, width as nat);
    }
    Some(out)
}

/// `a` comes before `b`, or equals it, in the order of a dictionary: the
/// first byte in which they differ decides, and a name comes before every
/// longer name that starts with it.
pub open spec fn lex_le(a: Seq<u8>, b: Seq<u8>) -> bool
    decreases a.len(),
{
    if a.len() == 0 {
        true
    } else if b.len() == 0 {
        false
    } else if a[0] != b[0] {
        a[0] < b[0]
    } else {
        lex_le(a.drop_first(), b.drop_first())
    }
}

/// The byte strings that a list of names holds.
pub open spec fn contents(names: Seq<Vec<u8>>) -> Seq<Seq<u8>> {
    Seq::new(names.len(), |i: int| names[i]@)
}

/// The room names among the first `n` names, in their order.
pub open spec fn room_names_in(names: Seq<Seq<u8>>, n: int) -> Seq<Seq<u8>>
    decreases n,
{
    if n <= 0 {
        Seq::empty()
    } else if is_room_name(names[n - 1]) {
        room_names_in(names, n - 1).push(names[n - 1])
    } else {
        room_names_in(names, n - 1)
    }
}

/// Sorts names in place with `sort` of std's slices. As std documents it,
/// the names afterwards are the names before, each as often as before, in
/// ascending order, and byte strings are ordered as in a dictionary.
#[verifier::external_body]
fn sort_names(names: &mut Vec<Vec<u8>>)
    ensures
        contents(final(names)@).to_multiset() == contents(old(names)@).to_multiset(),
        forall|i: int, j: int|
            0 <= i <= j < final(names)@.len() ==> lex_le(
                #[trigger] final(names)@[i]@,
                #[trigger] final(names)@[j]@,
            ),
{
    names.sort();
}

/// The room files among `names`, sorted by name.
pub fn sorted_room_names(names: &Vec<Vec<u8>>) -> (r: Vec<Vec<u8>>)
    ensures
        contents(r@).to_multiset() == room_names_in(contents(names@), names@.len() as int).to_multiset(),
        forall|i: int, j: int| 0 <= i <= j < r@.len() ==> lex_le(#[trigger] r@[i]@, #[trigger] r@[j]@),
{
    let ghost all = contents(names@);
    let n = names.len();
    let mut out: Vec<Vec<u8>> = Vec::new();
    let mut i: usize = 0;
    assert(contents(out@) =~= room_names_in(all, 0));
    while i < n
        invariant
            n == names@.len(),
            all == contents(names@),
            i <= n,
            contents(out@) == room_names_in(all, i as int),
        decreases n - i,
    {
        let name = &names[i];
        assert(all[i as int] == name@);
        if is_room_file_name(name) {
            let ghost before = out@;
            let copy = name.clone();
            assert(copy@ =~= name@);
            out.push(copy);
            assert(contents(out@) =~= contents(before).push(name@));
        }
        i += 1;
    }
    sort_names(&mut out);
    out
}

} // verus!
