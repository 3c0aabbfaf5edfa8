//! How one launcher process hands its command line to another: a byte with the
//! number of arguments, then each argument followed by a NUL byte.

use vstd::prelude::*;

use crate::bytes;

verus! {

/// One more than the largest number of arguments that can be sent.
pub const ARGUMENT_LIMIT: usize = 255;

/// The arguments one after the other, each followed by a NUL byte.
pub open spec fn fields(args: Seq<Seq<u8>>) -> Seq<u8>
    decreases args.len(),
{
    if args.len() == 0 {
        seq![]
    } else {
        fields(args.drop_last()) + args.last().push(bytes::NUL)
    }
}

/// The request that carries `args`.
pub open spec fn request(args: Seq<Seq<u8>>) -> Seq<u8> {
    seq![args.len() as u8] + fields(args)
}

/// No argument holds a NUL byte.
pub open spec fn free_of_nul(args: Seq<Seq<u8>>) -> bool {
    forall|i: int| 0 <= i < args.len() ==> !(#[trigger] args[i]).contains(bytes::NUL)
}

/// What was received begins with the request that carries `args`.
pub open spec fn carries(received: Seq<u8>, args: Seq<Seq<u8>>) -> bool {
    &&& args.len() <= u8::MAX
    &&& free_of_nul(args)
    &&& request(args).is_prefix_of(received)
}

/// Makes the request that carries `args`, or nothing where there are too many
/// of them.
pub fn encode_request(args: &Vec<Vec<u8>>) -> (encoded: Option<Vec<u8>>)
    ensures
        encoded is None <==> args@.len() >= ARGUMENT_LIMIT,
        encoded matches Some(sent) ==> sent@ == request(bytes::contents(args@)),
{
    if args.len() >= ARGUMENT_LIMIT {
        return None;
    }
    let ghost all = bytes::contents(args@);
    let mut sent: Vec<u8> = Vec::new();
    sent.push(args.len() as u8);
    assert(all.take(0) =~= seq![]);
    assert(sent@ =~= seq![args@.len() as u8] + fields(all.take(0)));
    let mut i: usize = 0;
    while i < args.len()
        invariant
            i <= args@.len(),
            all == bytes::contents(args@),
            sent@ == seq![args@.len() as u8] + fields(all.take(i as int)),
        decreases args@.len() - i,
    {
        bytes::append_bytes(&mut sent, &args[i]);
        sent.push(bytes::NUL);
        assert(all.take(i + 1).drop_last() =~= all.take(i as int));
        assert(sent@ =~= seq![args@.len() as u8] + fields(all.take(i + 1)));
        i += 1;
    }
    assert(all.take(all.len() as int) =~= all);
    Some(sent)
}

/// The position of the first NUL byte at or after `from`, or the number of
/// bytes where there is none.
fn next_nul(received: &Vec<u8>, from: usize) -> (end: usize)
    requires
        from <= received@.len(),
    ensures
        from <= end <= received@.len(),
        end < received@.len() ==> received@[end as int] == bytes::NUL,
        forall|j: int| from <= j < end ==> received@[j] != bytes::NUL,
{
    let mut i: usize = from;
    while i < received.len()
        invariant
            from <= i <= received@.len(),
            forall|j: int| from <= j < i ==> received@[j] != bytes::NUL,
        decreases received@.len() - i,
    {
        if received[i] == bytes::NUL {
            return i;
        }
        i += 1;
    }
    i
}

/// The bytes from `from` up to `to`.
fn part(received: &Vec<u8>, from: usize, to: usize) -> (bytes: Vec<u8>)
    requires
        from <= to <= received@.len(),
    ensures
        bytes@ == received@.subrange(from as int, to as int),
{
    let mut bytes: Vec<u8> = Vec::new();
    let mut i: usize = from;
    while i < to
        invariant
            from <= i <= to <= received@.len(),
            bytes@ == received@.subrange(from as int, i as int),
        decreases to - i,
    {
        bytes.push(received[i]);
        i += 1;
        assert(bytes@ =~= received@.subrange(from as int, i as int));
    }
    bytes
}

/// The arguments in what was received so far, or nothing while the request is
/// not complete. What follows the request is ignored.
pub fn decode_request(received: &Vec<u8>) -> (decoded: Option<Vec<Vec<u8>>>)
    ensures
        decoded matches Some(args) ==> carries(received@, bytes::contents(args@)),
        decoded is None ==> forall|args: Seq<Seq<u8>>| !#[trigger] carries(received@, args),
{
    if received.len() == 0 {
        return None;
    }
    let count: usize = received[0] as usize;
    let mut args: Vec<Vec<u8>> = Vec::new();
    let mut at: usize = 1;
    let ghost start = seq![count as u8];
    assert(bytes::contents(args@) =~= seq![]);
    assert(received@.take(1) =~= start + fields(bytes::contents(args@)));
    while args.len() < count
        invariant
            count <= u8::MAX,
            1 <= at <= received@.len(),
            received@[0] == count,
            args@.len() <= count,
            start == seq![count as u8],
            received@.take(at as int) == start + fields(bytes::contents(args@)),
            free_of_nul(bytes::contents(args@)),
        decreases count - args@.len(),
    {
        let end = next_nul(received, at);
        let ghost known = bytes::contents(args@);
        if end == received.len() {
            proof {
                assert forall|other: Seq<Seq<u8>>| !#[trigger] carries(received@, other) by {
                    lemma_no_field_without_end(received@, known, other, at as int);
                }
            }
            return None;
        }
        let arg = part(received, at, end);
        args.push(arg);
        proof {
            let longer = bytes::contents(args@);
            assert(longer =~= known.push(arg@));
            assert(longer.drop_last() =~= known);
            assert(!arg@.contains(bytes::NUL));
            assert(longer.last() == arg@);
            assert(fields(longer) == fields(known) + arg@.push(bytes::NUL));
            assert(received@.take(end + 1) =~= received@.take(at as int) + arg@.push(bytes::NUL));
            assert(received@.take(end + 1) =~= start + fields(longer));
        }
        at = end + 1;
    }
    assert(request(bytes::contents(args@)) =~= received@.take(at as int));
    Some(args)
}

/// The fields of the first arguments come first.
proof fn lemma_fields_of_first(args: Seq<Seq<u8>>, n: int)
    requires
        0 <= n <= args.len(),
    ensures
        fields(args.take(n)).is_prefix_of(fields(args)),
    decreases args.len() - n,
{
    if n == args.len() {
        assert(args.take(n) =~= args);
    } else {
        lemma_fields_of_first(args, n + 1);
        assert(args.take(n + 1).drop_last() =~= args.take(n));
        assert(fields(args.take(n)).is_prefix_of(fields(args.take(n + 1))));
        let a = fields(args.take(n));
        let b = fields(args.take(n + 1));
        assert(a =~= fields(args).subrange(0, a.len() as int));
    }
}

/// Where two lists of arguments begin the same bytes, the shorter list is the
/// beginning of the longer.
proof fn lemma_fields_agree(received: Seq<u8>, short: Seq<Seq<u8>>, long: Seq<Seq<u8>>)
    requires
        short.len() <= long.len(),
        free_of_nul(short),
        free_of_nul(long),
        fields(short).is_prefix_of(received),
        fields(long).is_prefix_of(received),
    ensures
        short == long.take(short.len() as int),
    decreases short.len(),
{
    let n = short.len() as int;
    if n == 0 {
        assert(short =~= long.take(0));
    } else {
        let first = short.drop_last();
        lemma_fields_of_first(short, n - 1);
        assert(short.take(n - 1) =~= first);
        assert(fields(first).is_prefix_of(received));
        lemma_fields_agree(received, first, long);
        lemma_fields_of_first(long, n);
        assert(long.take(n).drop_last() =~= first);
        let p = fields(first).len() as int;
        let a = short.last();
        let b = long[n - 1];
        assert(long.take(n).last() == b);
        let x = fields(short);
        let y = fields(long.take(n));
        assert(x == fields(first) + a.push(bytes::NUL));
        assert(y == fields(first) + b.push(bytes::NUL));
        assert(y.is_prefix_of(received));
        assert forall|i: int| 0 <= i <= a.len() implies received[p + i] == a.push(bytes::NUL)[i] by {
            assert(x[p + i] == a.push(bytes::NUL)[i]);
        }
        assert forall|i: int| 0 <= i <= b.len() implies received[p + i] == b.push(bytes::NUL)[i] by {
            assert(y[p + i] == b.push(bytes::NUL)[i]);
        }
        assert(!a.contains(bytes::NUL) && !b.contains(bytes::NUL));
        if a.len() < b.len() {
            let k = a.len() as int;
            assert(received[p + k] == a.push(bytes::NUL)[k]);
            assert(received[p + k] == b.push(bytes::NUL)[k]);
            assert(b[k] == bytes::NUL);
        } else if b.len() < a.len() {
            let k = b.len() as int;
            assert(received[p + k] == a.push(bytes::NUL)[k]);
            assert(received[p + k] == b.push(bytes::NUL)[k]);
            assert(a[k] == bytes::NUL);
        }
        assert forall|i: int| 0 <= i < a.len() implies a[i] == b[i] by {
            assert(received[p + i] == a.push(bytes::NUL)[i]);
            assert(received[p + i] == b.push(bytes::NUL)[i]);
        }
        assert(a =~= b);
        assert(short =~= long.take(n));
    }
}

/// Where the bytes after the fields found so far hold no NUL byte, no request
/// with more arguments can be there.
proof fn lemma_no_field_without_end(
    received: Seq<u8>,
    known: Seq<Seq<u8>>,
    args: Seq<Seq<u8>>,
    at: int,
)
    requires
        1 <= at <= received.len(),
        free_of_nul(known),
        known.len() < received[0],
        received.take(at) == seq![received[0]] + fields(known),
        forall|j: int| at <= j < received.len() ==> received[j] != bytes::NUL,
    ensures
        !carries(received, args),
{
    if carries(received, args) {
        let n = known.len() as int;
        let tail = received.skip(1);
        assert(received.take(at).len() == at);
        assert((seq![received[0]] + fields(known)).len() == 1 + fields(known).len());
        assert(request(args)[0] == received[0]);
        assert(args.len() == received[0]);
        assert forall|i: int| 0 <= i < fields(known).len() implies fields(known)[i] == tail[i] by {
            assert(received.take(at)[i + 1] == received[i + 1]);
        }
        assert(fields(known) =~= tail.subrange(0, fields(known).len() as int));
        assert forall|i: int| 0 <= i < fields(args).len() implies fields(args)[i] == tail[i] by {
            assert(request(args)[i + 1] == received[i + 1]);
        }
        assert(fields(args) =~= tail.subrange(0, fields(args).len() as int));
        lemma_fields_agree(tail, known, args);
        lemma_fields_of_first(args, n + 1);
        assert(args.take(n + 1).drop_last() =~= known);
        let more = fields(args.take(n + 1));
        let end = more.len() - 1;
        assert(more[end] == bytes::NUL);
        assert(fields(args)[end] == more[end]);
        assert(received[end + 1] == bytes::NUL);
    }
}

/// What was received carries at most one list of arguments.
pub proof fn law_request_is_unambiguous(received: Seq<u8>, a: Seq<Seq<u8>>, b: Seq<Seq<u8>>)
    requires
        carries(received, a),
        carries(received, b),
    ensures
        a == b,
{
    let tail = received.skip(1);
    assert(request(a)[0] == received[0]);
    assert(request(b)[0] == received[0]);
    assert forall|i: int| 0 <= i < fields(a).len() implies fields(a)[i] == tail[i] by {
        assert(request(a)[i + 1] == received[i + 1]);
    }
    assert(fields(a) =~= tail.subrange(0, fields(a).len() as int));
    assert forall|i: int| 0 <= i < fields(b).len() implies fields(b)[i] == tail[i] by {
        assert(request(b)[i + 1] == received[i + 1]);
    }
    assert(fields(b) =~= tail.subrange(0, fields(b).len() as int));
    lemma_fields_agree(tail, a, b);
    assert(b.take(b.len() as int) =~= b);
}

/// What is sent arrives: a request, whatever follows it, carries the arguments
/// it was made of and no others. Arguments never hold a NUL byte.
pub proof fn law_sent_arguments_arrive(args: Seq<Seq<u8>>, after: Seq<u8>, read: Seq<Seq<u8>>)
    requires
        args.len() < ARGUMENT_LIMIT,
        free_of_nul(args),
    ensures
        carries(request(args) + after, args),
        carries(request(args) + after, read) ==> read == args,
{
    let received = request(args) + after;
    assert(request(args) =~= received.subrange(0, request(args).len() as int));
    if carries(received, read) {
        law_request_is_unambiguous(received, read, args);
    }
}

/// Less than a request carries nothing.
pub proof fn law_part_of_request_carries_nothing(
    args: Seq<Seq<u8>>,
    received: Seq<u8>,
    read: Seq<Seq<u8>>,
)
    requires
        args.len() <= u8::MAX,
        free_of_nul(args),
        received.is_prefix_of(request(args)),
        received.len() < request(args).len(),
    ensures
        !carries(received, read),
{
    if carries(received, read) {
        let whole = request(args);
        assert(request(read) =~= whole.subrange(0, request(read).len() as int));
        assert(whole =~= whole.subrange(0, whole.len() as int));
        law_request_is_unambiguous(whole, read, args);
    }
}

/// A request has a byte for the number of its arguments and one behind each.
pub proof fn lemma_request_length(args: Seq<Seq<u8>>)
    ensures
        request(args).len() >= 1 + args.len(),
    decreases args.len(),
{
    if args.len() > 0 {
        lemma_request_length(args.drop_last());
    }
}

/// How a request is made: its first byte is the number of arguments, and each
/// further argument puts its own bytes and a NUL byte behind those of the ones
/// before it. Without arguments there is only the first byte.
pub proof fn law_request_grows_with_each_argument(args: Seq<Seq<u8>>, arg: Seq<u8>)
    requires
        args.len() < 255,
    ensures
        request(seq![]) == seq![0u8],
        request(args)[0] == args.len(),
        request(args.push(arg))[0] == args.len() + 1,
        request(args.push(arg)).skip(1) == request(args).skip(1) + arg + seq![0u8],
{
    assert(fields(Seq::<Seq<u8>>::empty()) =~= seq![]);
    assert(request(seq![]) =~= seq![0u8]);
    assert(args.push(arg).drop_last() =~= args);
    assert(request(args).skip(1) =~= fields(args));
    assert(request(args.push(arg)).skip(1) =~= fields(args) + arg + seq![0u8]);
}

/// Each argument stands in the request whole, and a NUL byte follows it.
pub proof fn law_each_argument_stands_in_the_request(args: Seq<Seq<u8>>, i: int) -> (at: int)
    requires
        0 <= i < args.len(),
    ensures
        1 <= at,
        at + args[i].len() < request(args).len(),
        request(args).subrange(at, at + args[i].len()) == args[i],
        request(args)[at + args[i].len()] == 0,
    decreases args.len(),
{
    let n = args.len() - 1;
    let before = args.drop_last();
    let whole = request(args);
    assert(whole.skip(1) =~= fields(args));
    if i == n {
        let at = 1 + fields(before).len() as int;
        assert(whole.subrange(at, at + args[i].len()) =~= args[i]);
        at
    } else {
        let at = law_each_argument_stands_in_the_request(before, i);
        assert(before[i] == args[i]);
        let part = request(before);
        assert forall|k: int| 1 <= k < part.len() implies #[trigger] whole[k] == part[k] by {}
        assert(whole.subrange(at, at + args[i].len()) =~= part.subrange(at, at + args[i].len()));
        at
    }
}

/// What is read is what was written, up to the largest number of arguments that
/// a byte can tell: bytes that begin with such a request carry exactly its
/// arguments. What carries arguments begins with their number.
pub proof fn law_what_is_read_was_written(args: Seq<Seq<u8>>, after: Seq<u8>, read: Seq<Seq<u8>>)
    requires
        args.len() <= 255,
        forall|i: int, j: int|
            0 <= i < args.len() && 0 <= j < args[i].len() ==> #[trigger] args[i][j] != 0,
    ensures
        carries(request(args) + after, read) <==> read == args,
        carries(after, read) ==> after.len() >= 1 + read.len() && after[0] == read.len(),
{
    let received = request(args) + after;
    assert(request(args) =~= received.subrange(0, request(args).len() as int));
    assert forall|i: int| 0 <= i < args.len() implies !(#[trigger] args[i]).contains(
        bytes::NUL,
    ) by {
        if args[i].contains(bytes::NUL) {
            let j = choose|j: int| 0 <= j < args[i].len() && args[i][j] == bytes::NUL;
            assert(args[i][j] != 0);
        }
    }
    if carries(received, read) {
        law_request_is_unambiguous(received, read, args);
    }
    if carries(after, read) {
        lemma_request_length(read);
        assert(request(read)[0] == after[0]);
    }
}

} // verus!
