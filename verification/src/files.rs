//! Cutting files into pieces and putting them together again.
//!
//! Everything is held in memory only, and gone with the session like everything
//! else.

use std::collections::HashMap;
use vstd::prelude::*;
use vstd::slice::{slice_subrange, slice_to_vec};
use crate::message::CHUNK;

verus! {

broadcast use vstd::std_specs::hash::group_hash_axioms;

/// A file that is still arriving.
pub struct Transfer {
    /// The name that its first piece gave it.
    pub name: String,
    /// A place for every piece. One that has not arrived is empty.
    pub parts: Vec<Vec<u8>>,
}

/// What has arrived of a file.
pub struct TransferView {
    pub name: Seq<char>,
    pub parts: Seq<Seq<u8>>,
}

/// The contents of a list of pieces.
pub open spec fn contents(parts: Seq<Vec<u8>>) -> Seq<Seq<u8>> {
    Seq::new(parts.len(), |i: int| parts[i]@)
}

impl View for Transfer {
    type V = TransferView;

    open spec fn view(&self) -> TransferView {
        TransferView { name: self.name@, parts: contents(self.parts@) }
    }
}

/// Files that are still arriving, by transfer.
pub struct Incoming {
    pub transfers: HashMap<u64, Transfer>,
}

impl View for Incoming {
    type V = Map<u64, TransferView>;

    open spec fn view(&self) -> Map<u64, TransferView> {
        self.transfers@.map_values(|t: Transfer| t@)
    }
}

/// How many pieces have arrived.
pub open spec fn arrived(parts: Seq<Seq<u8>>) -> nat
    decreases parts.len(),
{
    if parts.len() == 0 {
        0
    } else {
        arrived(parts.drop_last()) + (if parts.last().len() > 0 {
            1nat
        } else {
            0nat
        })
    }
}

/// The pieces one after another.
pub open spec fn joined(parts: Seq<Seq<u8>>) -> Seq<u8>
    decreases parts.len(),
{
    if parts.len() == 0 {
        Seq::empty()
    } else {
        joined(parts.drop_last()) + parts.last()
    }
}

/// A transfer of which nothing has arrived.
pub open spec fn empty_transfer(name: Seq<char>, total: nat) -> TransferView {
    TransferView { name, parts: Seq::new(total, |i: int| Seq::<u8>::empty()) }
}

/// The transfer a piece belongs to: the one that is under way, or a new one.
pub open spec fn transfer_of(
    files: Map<u64, TransferView>,
    id: u64,
    total: u32,
    name: Seq<char>,
) -> TransferView {
    if files.contains_key(id) {
        files[id]
    } else {
        empty_transfer(name, total as nat)
    }
}

/// A transfer with one more piece in its place.
pub open spec fn with_piece(t: TransferView, index: u32, data: Seq<u8>) -> TransferView {
    TransferView { name: t.name, parts: t.parts.update(index as int, data) }
}

/// What became of a piece.
pub enum ArrivalView {
    /// It contradicts what the transfer's first piece said, and is dropped.
    Ignored,
    /// It was put in its place; so many have arrived.
    Partial { have: nat },
    /// It was the last one, and this is the file.
    Complete { have: nat, name: Seq<char>, data: Seq<u8> },
}

/// What becomes of a piece.
pub open spec fn arrival(
    files: Map<u64, TransferView>,
    id: u64,
    index: u32,
    total: u32,
    name: Seq<char>,
    data: Seq<u8>,
) -> ArrivalView {
    let t = transfer_of(files, id, total, name);
    let next = with_piece(t, index, data);
    if t.parts.len() != total {
        ArrivalView::Ignored
    } else if arrived(next.parts) == total {
        ArrivalView::Complete { have: arrived(next.parts), name: t.name, data: joined(next.parts) }
    } else {
        ArrivalView::Partial { have: arrived(next.parts) }
    }
}

/// The files that are still arriving after a piece came.
pub open spec fn after_piece(
    files: Map<u64, TransferView>,
    id: u64,
    index: u32,
    total: u32,
    name: Seq<char>,
    data: Seq<u8>,
) -> Map<u64, TransferView> {
    match arrival(files, id, index, total, name, data) {
        ArrivalView::Ignored => files,
        ArrivalView::Partial { .. } => files.insert(
            id,
            with_piece(transfer_of(files, id, total, name), index, data),
        ),
        ArrivalView::Complete { .. } => files.remove(id),
    }
}

/// What became of a piece.
#[derive(Debug)]
pub enum Arrival {
    /// It contradicts what the transfer's first piece said, and is dropped.
    Ignored,
    /// It was put in its place; so many have arrived.
    Partial { have: u32 },
    /// It was the last one, and this is the file.
    Complete { have: u32, name: String, data: Vec<u8> },
}

impl View for Arrival {
    type V = ArrivalView;

    open spec fn view(&self) -> ArrivalView {
        match *self {
            Arrival::Ignored => ArrivalView::Ignored,
            Arrival::Partial { have } => ArrivalView::Partial { have: have as nat },
            Arrival::Complete { have, name, data } => ArrivalView::Complete {
                have: have as nat,
                name: name@,
                data: data@,
            },
        }
    }
}

proof fn lemma_arrived_bound(parts: Seq<Seq<u8>>)
    ensures
        arrived(parts) <= parts.len(),
    decreases parts.len(),
{
    if parts.len() > 0 {
        lemma_arrived_bound(parts.drop_last());
    }
}

/// Count the pieces that have arrived.
fn count_arrived(parts: &Vec<Vec<u8>>) -> (n: usize)
    ensures
        n == arrived(contents(parts@)),
        n <= parts@.len(),
{
    let mut n: usize = 0;
    let mut i: usize = 0;
    while i < parts.len()
        invariant
            i <= parts@.len(),
            n <= i,
            n == arrived(contents(parts@).take(i as int)),
        decreases parts@.len() - i,
    {
        proof {
            let next = contents(parts@).take(i + 1);
            assert(next.drop_last() =~= contents(parts@).take(i as int));
            assert(next.last() == parts@[i as int]@);
        }
        if parts[i].len() > 0 {
            n = n + 1;
        }
        i = i + 1;
    }
    assert(contents(parts@).take(i as int) =~= contents(parts@));
    n
}

/// Put the pieces one after another.
fn concat(parts: &Vec<Vec<u8>>) -> (out: Vec<u8>)
    ensures
        out@ == joined(contents(parts@)),
{
    let mut out: Vec<u8> = Vec::new();
    let mut i: usize = 0;
    while i < parts.len()
        invariant
            i <= parts@.len(),
            out@ == joined(contents(parts@).take(i as int)),
        decreases parts@.len() - i,
    {
        proof {
            let next = contents(parts@).take(i + 1);
            assert(next.drop_last() =~= contents(parts@).take(i as int));
            assert(next.last() == parts@[i as int]@);
        }
        out.extend_from_slice(parts[i].as_slice());
        i = i + 1;
    }
    assert(contents(parts@).take(i as int) =~= contents(parts@));
    out
}

/// Room for `total` pieces.
fn places(total: u32) -> (parts: Vec<Vec<u8>>)
    ensures
        contents(parts@) == Seq::new(total as nat, |i: int| Seq::<u8>::empty()),
{
    let mut parts: Vec<Vec<u8>> = Vec::new();
    let mut i: u32 = 0;
    while i < total
        invariant
            i <= total,
            parts@.len() == i,
            forall|j: int| 0 <= j < i ==> (#[trigger] parts@[j])@ == Seq::<u8>::empty(),
        decreases total - i,
    {
        parts.push(Vec::new());
        i = i + 1;
    }
    assert(contents(parts@) =~= Seq::new(total as nat, |i: int| Seq::<u8>::empty()));
    parts
}

impl Incoming {
    /// Nothing is arriving.
    pub fn new() -> (files: Self)
        ensures
            files@ == Map::<u64, TransferView>::empty(),
    {
        let files: Incoming = Incoming { transfers: HashMap::new() };
        assert(files@ =~= Map::<u64, TransferView>::empty());
        files
    }

    /// Take one piece of a file.
    ///
    /// Pieces are held until the set is complete. A transfer that is abandoned
    /// halfway is dropped when the session ends, along with everything else.
    pub fn receive(&mut self, id: u64, index: u32, total: u32, name: &str, data: Vec<u8>) -> (r:
        Arrival)
        requires
            index < total,
        ensures
            final(self)@ == after_piece(old(self)@, id, index, total, name@, data@),
            r@ == arrival(old(self)@, id, index, total, name@, data@),
    {
        let ghost before = self@;
        let ghost held = self.transfers@;
        let mut transfer: Transfer = match self.transfers.remove(&id) {
            Some(t) => t,
            None => Transfer { name: name.to_owned(), parts: places(total) },
        };
        let ghost t = transfer@;
        assert(t == transfer_of(before, id, total, name@));
        if transfer.parts.len() != total as usize {
            self.transfers.insert(id, transfer);
            assert(self@ =~= before);
            return Arrival::Ignored;
        }
        let ghost next = with_piece(t, index, data@);
        transfer.parts.set(index as usize, data);
        assert(transfer@.parts =~= next.parts);
        let have: u32 = count_arrived(&transfer.parts) as u32;
        if have == total {
            assert(self@ =~= before.remove(id));
            let data: Vec<u8> = concat(&transfer.parts);
            Arrival::Complete { have, name: transfer.name, data }
        } else {
            self.transfers.insert(id, transfer);
            assert(self@ =~= before.insert(id, next));
            Arrival::Partial { have }
        }
    }
}

/// How many pieces a file is cut into.
pub open spec fn piece_count(len: nat) -> nat {
    (len + CHUNK - 1) as nat / CHUNK as nat
}

/// Piece `i` of a file: [`CHUNK`] bytes, or what is left.
pub open spec fn piece(data: Seq<u8>, i: nat) -> Seq<u8> {
    let from = i * CHUNK as nat;
    let to = if from + CHUNK <= data.len() {
        from + CHUNK
    } else {
        data.len() as int
    };
    data.subrange(from as int, to as int)
}

/// The pieces of a file.
pub open spec fn pieces(data: Seq<u8>) -> Seq<Seq<u8>> {
    Seq::new(piece_count(data.len()), |i: int| piece(data, i as nat))
}

/// Piece `i` of a file.
pub fn take_piece(data: &[u8], i: u32) -> (r: Vec<u8>)
    requires
        i < piece_count(data@.len()),
    ensures
        r@ == piece(data@, i as nat),
        0 < r@.len() <= CHUNK,
{
    let len: usize = data.len();
    assert(i as nat * CHUNK as nat <= (piece_count(len as nat) - 1) * CHUNK as nat)
        by (nonlinear_arith)
        requires
            i < piece_count(len as nat),
            CHUNK == 30_000,
    ;
    let from: usize = i as usize * CHUNK;
    let to: usize = if len - from >= CHUNK {
        from + CHUNK
    } else {
        len
    };
    slice_to_vec(slice_subrange(data, from, to))
}

/// How many pieces a file is cut into.
pub fn count_pieces(data: &[u8]) -> (n: u64)
    ensures
        n == piece_count(data@.len()),
{
    let len: u64 = data.len() as u64;
    if len % CHUNK as u64 == 0 {
        len / CHUNK as u64
    } else {
        len / CHUNK as u64 + 1
    }
}

proof fn lemma_joined_pieces(data: Seq<u8>, n: nat)
    requires
        n <= piece_count(data.len()),
    ensures
        joined(pieces(data).take(n as int)) == data.take(
            if n * CHUNK as nat <= data.len() {
                (n * CHUNK as nat) as int
            } else {
                data.len() as int
            },
        ),
    decreases n,
{
    if n == 0 {
        assert(data.take(0) =~= Seq::<u8>::empty());
    } else {
        let m = (n - 1) as nat;
        lemma_joined_pieces(data, m);
        let all = pieces(data).take(n as int);
        assert(all.drop_last() =~= pieces(data).take(m as int));
        assert(all.last() == piece(data, m));
        assert(m * CHUNK as nat + CHUNK as nat == n * CHUNK as nat) by (nonlinear_arith)
            requires
                m == n - 1,
        ;
        assert(m * CHUNK as nat <= data.len()) by (nonlinear_arith)
            requires
                m < piece_count(data.len()),
                CHUNK == 30_000,
        ;
        assert(joined(all) =~= data.take(
            if n * CHUNK as nat <= data.len() {
                (n * CHUNK as nat) as int
            } else {
                data.len() as int
            },
        ));
    }
}

/// The pieces of a file, one after another, are the file.
pub proof fn law_pieces_make_the_file(data: Seq<u8>)
    ensures
        joined(pieces(data)) == data,
{
    let n = piece_count(data.len());
    lemma_joined_pieces(data, n);
    assert(pieces(data).take(n as int) =~= pieces(data));
    assert(n * CHUNK as nat >= data.len()) by (nonlinear_arith)
        requires
            n == piece_count(data.len()),
            CHUNK == 30_000,
    ;
    assert(data.take(data.len() as int) =~= data);
    if n * CHUNK as nat <= data.len() {
        assert(data.take((n * CHUNK as nat) as int) =~= data);
    }
}

/// No piece is empty, and none is larger than a chunk.
pub proof fn law_pieces_are_never_empty(data: Seq<u8>, i: nat)
    requires
        i < piece_count(data.len()),
    ensures
        0 < piece(data, i).len() <= CHUNK,
{
    assert(i * CHUNK as nat <= (piece_count(data.len()) - 1) * CHUNK as nat) by (nonlinear_arith)
        requires
            i < piece_count(data.len()),
            CHUNK == 30_000,
    ;
}

/// Whether a transfer holds pieces of `data` only, each in its place.
pub open spec fn is_part_of(t: TransferView, data: Seq<u8>) -> bool {
    &&& t.parts.len() == piece_count(data.len())
    &&& forall|i: int|
        0 <= i < t.parts.len() ==> (#[trigger] t.parts[i]).len() == 0 || t.parts[i] == piece(
            data,
            i as nat,
        )
}

proof fn lemma_all_arrived(parts: Seq<Seq<u8>>, i: int)
    requires
        arrived(parts) == parts.len(),
        0 <= i < parts.len(),
    ensures
        parts[i].len() > 0,
    decreases parts.len(),
{
    lemma_arrived_bound(parts.drop_last());
    if i < parts.len() - 1 {
        lemma_all_arrived(parts.drop_last(), i);
    }
}

proof fn lemma_none_missing(parts: Seq<Seq<u8>>)
    requires
        forall|i: int| 0 <= i < parts.len() ==> (#[trigger] parts[i]).len() > 0,
    ensures
        arrived(parts) == parts.len(),
    decreases parts.len(),
{
    if parts.len() > 0 {
        lemma_none_missing(parts.drop_last());
    }
}

/// Pieces may arrive in any order, among those of other transfers, and more
/// than once. Each that arrives leaves a transfer that holds pieces of the file
/// only. The transfer is complete exactly when no other piece is missing, and
/// what comes out then is the file.
pub proof fn law_transfers_deliver_the_file(
    files: Map<u64, TransferView>,
    id: u64,
    index: u32,
    name: Seq<char>,
    data: Seq<u8>,
)
    requires
        piece_count(data.len()) <= u32::MAX,
        index < piece_count(data.len()),
        files.contains_key(id) ==> is_part_of(files[id], data),
    ensures
        ({
            let total = piece_count(data.len()) as u32;
            let came = arrival(files, id, index, total, name, piece(data, index as nat));
            let after = after_piece(files, id, index, total, name, piece(data, index as nat));
            let t = transfer_of(files, id, total, name);
            &&& match came {
                ArrivalView::Ignored => false,
                ArrivalView::Partial { .. } => after.contains_key(id) && is_part_of(
                    after[id],
                    data,
                ),
                ArrivalView::Complete { data: file, .. } => file == data,
            }
            &&& came is Complete <==> forall|i: int|
                0 <= i < total && i != index ==> (#[trigger] t.parts[i]).len() > 0
        }),
{
    let total = piece_count(data.len()) as u32;
    let t = transfer_of(files, id, total, name);
    let next = with_piece(t, index, piece(data, index as nat));
    assert(is_part_of(t, data));
    assert(is_part_of(next, data));
    if arrived(next.parts) == total {
        assert(next.parts =~= pieces(data)) by {
            assert forall|i: int| 0 <= i < next.parts.len() implies next.parts[i] == pieces(
                data,
            )[i] by {
                lemma_all_arrived(next.parts, i);
            }
        }
        law_pieces_make_the_file(data);
        assert forall|i: int| 0 <= i < total && i != index implies (#[trigger] t.parts[i]).len()
            > 0 by {
            lemma_all_arrived(next.parts, i);
            assert(next.parts[i] == t.parts[i]);
        }
    }
    if forall|i: int| 0 <= i < total && i != index ==> (#[trigger] t.parts[i]).len() > 0 {
        law_pieces_are_never_empty(data, index as nat);
        assert forall|i: int| 0 <= i < next.parts.len() implies (#[trigger] next.parts[i]).len()
            > 0 by {
            if i != index {
                assert(next.parts[i] == t.parts[i]);
            }
        }
        lemma_none_missing(next.parts);
    }
}

/// A piece of one transfer leaves every other transfer alone.
pub proof fn law_transfers_do_not_mix(
    files: Map<u64, TransferView>,
    id: u64,
    index: u32,
    total: u32,
    name: Seq<char>,
    data: Seq<u8>,
    other: u64,
)
    requires
        other != id,
    ensures
        after_piece(files, id, index, total, name, data).contains_key(other) == files.contains_key(
            other,
        ),
        files.contains_key(other) ==> after_piece(files, id, index, total, name, data)[other]
            == files[other],
{
}

/// A file is cut into as few pieces of 30,000 bytes as hold it: all but the
/// last are full, and the last holds what is left.
pub proof fn law_pieces_are_cut_in_place(data: Seq<u8>, i: nat, k: int)
    requires
        i < piece_count(data.len()),
        0 <= k < piece(data, i).len(),
    ensures
        (piece_count(data.len()) - 1) * 30_000 < data.len() <= piece_count(data.len()) * 30_000,
        piece(data, i)[k] == data[i * 30_000 + k],
        i + 1 < piece_count(data.len()) ==> piece(data, i).len() == 30_000,
        i + 1 == piece_count(data.len()) ==> piece(data, i).len() == data.len() - i * 30_000,
{
    let n = piece_count(data.len());
    assert(i * 30_000 <= (n - 1) * 30_000) by (nonlinear_arith)
        requires
            i <= n - 1,
    ;
    if i + 1 < n {
        assert((i + 1) * 30_000 <= (n - 1) * 30_000) by (nonlinear_arith)
            requires
                i + 1 <= n - 1,
        ;
    }
}

/// There is nothing to send of an empty file, and at least one piece of any
/// other.
pub proof fn law_only_the_empty_file_has_no_pieces(len: nat)
    ensures
        piece_count(len) == 0 <==> len == 0,
        len <= piece_count(len) * 30_000 < len + 30_000,
{
}

proof fn lemma_arrived_update(parts: Seq<Seq<u8>>, i: int, data: Seq<u8>)
    requires
        0 <= i < parts.len(),
        data.len() > 0,
    ensures
        arrived(parts.update(i, data)) == arrived(parts) + (if parts[i].len() == 0 {
            1nat
        } else {
            0nat
        }),
    decreases parts.len(),
{
    let next = parts.update(i, data);
    if i == parts.len() - 1 {
        assert(next.drop_last() =~= parts.drop_last());
    } else {
        assert(next.drop_last() =~= parts.drop_last().update(i, data));
        lemma_arrived_update(parts.drop_last(), i, data);
    }
}

proof fn lemma_none_arrived(n: nat)
    ensures
        arrived(Seq::new(n, |i: int| Seq::<u8>::empty())) == 0,
    decreases n,
{
    if n > 0 {
        lemma_none_arrived((n - 1) as nat);
        assert(Seq::new(n, |i: int| Seq::<u8>::empty()).drop_last() =~= Seq::new(
            (n - 1) as nat,
            |i: int| Seq::<u8>::empty(),
        ));
    }
}

/// The first piece of a transfer opens it under the name the piece gives, with
/// as many places as the piece claims, all of them empty but its own.
pub proof fn law_a_first_piece_opens_a_transfer(
    files: Map<u64, TransferView>,
    id: u64,
    index: u32,
    total: u32,
    name: Seq<char>,
    data: Seq<u8>,
)
    requires
        !files.contains_key(id),
        index < total,
        data.len() > 0,
    ensures
        ({
            let after = after_piece(files, id, index, total, name, data);
            if total == 1 {
                &&& arrival(files, id, index, total, name, data) == (ArrivalView::Complete {
                    have: 1,
                    name,
                    data,
                })
                &&& after == files
            } else {
                &&& arrival(files, id, index, total, name, data) == (ArrivalView::Partial {
                    have: 1,
                })
                &&& after.contains_key(id)
                &&& after[id].name == name
                &&& after[id].parts.len() == total
                &&& after[id].parts[index as int] == data
                &&& forall|i: int|
                    0 <= i < total && i != index ==> (#[trigger] after[id].parts[i]).len() == 0
            }
        }),
{
    let t = empty_transfer(name, total as nat);
    let next = with_piece(t, index, data);
    lemma_none_arrived(total as nat);
    lemma_arrived_update(t.parts, index as int, data);
    if total == 1 {
        assert(next.parts =~= seq![data]);
        reveal_with_fuel(joined, 2);
        assert(next.parts.drop_last() =~= Seq::<Seq<u8>>::empty());
        assert(joined(next.parts) =~= data);
        assert(after_piece(files, id, index, total, name, data) =~= files);
    }
}

/// A later piece goes into its own place and into no other, and is counted
/// where that place was empty. The transfer keeps the name its first piece gave
/// it. A piece that claims another number of pieces is dropped.
pub proof fn law_a_later_piece_goes_in_its_place(
    files: Map<u64, TransferView>,
    id: u64,
    index: u32,
    total: u32,
    name: Seq<char>,
    data: Seq<u8>,
    i: int,
)
    requires
        files.contains_key(id),
        index < total,
        data.len() > 0,
    ensures
        ({
            let before = files[id];
            let came = arrival(files, id, index, total, name, data);
            let after = after_piece(files, id, index, total, name, data);
            let have = arrived(before.parts) + (if before.parts[index as int].len() == 0 {
                1nat
            } else {
                0nat
            });
            if before.parts.len() != total {
                came is Ignored && after == files
            } else if have < total {
                &&& came == (ArrivalView::Partial { have })
                &&& after.dom() == files.dom()
                &&& after[id].name == before.name
                &&& after[id].parts.len() == total
                &&& after[id].parts[index as int] == data
                &&& 0 <= i < total && i != index ==> after[id].parts[i] == before.parts[i]
            } else {
                &&& came matches ArrivalView::Complete { have: all, name: file, .. }
                &&& all == total
                &&& file == before.name
                &&& after == files.remove(id)
            }
        }),
{
    let before = files[id];
    if before.parts.len() == total {
        lemma_arrived_update(before.parts, index as int, data);
        lemma_arrived_bound(before.parts.update(index as int, data));
        let after = after_piece(files, id, index, total, name, data);
        if arrived(before.parts.update(index as int, data)) < total {
            assert(after.dom() =~= files.dom());
        }
    }
}

/// A transfer of which the first `k` pieces have arrived.
pub open spec fn begun(name: Seq<char>, data: Seq<u8>, k: nat) -> TransferView {
    TransferView {
        name,
        parts: Seq::new(
            piece_count(data.len()),
            |i: int|
                if i < k {
                    piece(data, i as nat)
                } else {
                    Seq::<u8>::empty()
                },
        ),
    }
}

proof fn lemma_begun(name: Seq<char>, data: Seq<u8>, k: nat)
    requires
        k <= piece_count(data.len()),
    ensures
        arrived(begun(name, data, k).parts) == k,
        k < piece_count(data.len()) ==> begun(name, data, k).parts.update(
            k as int,
            piece(data, k),
        ) == begun(name, data, k + 1).parts,
    decreases k,
{
    let parts = begun(name, data, k).parts;
    if k < piece_count(data.len()) {
        assert(parts.update(k as int, piece(data, k)) =~= begun(name, data, k + 1).parts);
    }
    if k == 0 {
        lemma_none_arrived(piece_count(data.len()));
        assert(parts =~= Seq::new(piece_count(data.len()), |i: int| Seq::<u8>::empty()));
    } else {
        let m = (k - 1) as nat;
        lemma_begun(name, data, m);
        law_pieces_are_never_empty(data, m);
        lemma_arrived_update(begun(name, data, m).parts, m as int, piece(data, m));
    }
}

/// Pieces that arrive in order, the first under a number that no transfer has,
/// are counted one by one; the last one completes the file, and leaves no trace
/// of the transfer.
pub proof fn law_pieces_in_order_make_the_file(
    files: Map<u64, TransferView>,
    id: u64,
    name: Seq<char>,
    data: Seq<u8>,
    k: u32,
)
    requires
        !files.contains_key(id),
        piece_count(data.len()) <= u32::MAX,
        k < piece_count(data.len()),
    ensures
        ({
            let total = piece_count(data.len()) as u32;
            let now = if k == 0 {
                files
            } else {
                files.insert(id, begun(name, data, k as nat))
            };
            let came = arrival(now, id, k, total, name, piece(data, k as nat));
            let after = after_piece(now, id, k, total, name, piece(data, k as nat));
            if k + 1 < total {
                &&& came == (ArrivalView::Partial { have: (k + 1) as nat })
                &&& after == files.insert(id, begun(name, data, (k + 1) as nat))
            } else {
                &&& came == (ArrivalView::Complete { have: total as nat, name, data })
                &&& after == files
            }
        }),
{
    let total = piece_count(data.len()) as u32;
    let now = if k == 0 {
        files
    } else {
        files.insert(id, begun(name, data, k as nat))
    };
    let t = transfer_of(now, id, total, name);
    let after = after_piece(now, id, k, total, name, piece(data, k as nat));
    assert(t.parts =~= begun(name, data, k as nat).parts);
    assert(t.name == name);
    lemma_begun(name, data, k as nat);
    lemma_begun(name, data, (k + 1) as nat);
    if k + 1 < total {
        assert(after =~= files.insert(id, begun(name, data, (k + 1) as nat)));
    } else {
        assert(begun(name, data, total as nat).parts =~= pieces(data));
        law_pieces_make_the_file(data);
        assert(after =~= files);
    }
}

} // verus!
