//! Keys and values of the positions already processed, layer by layer, so that
//! each step only adds its own.

use vstd::prelude::*;

use crate::qwen2::Config;

verus! {

struct LayerKv<T> {
    k: Vec<T>,
    v: Vec<T>,
}

/// Keys and values of a sequence, in every layer. The numbers are of any type.
pub struct KvCache<T> {
    layers: Vec<LayerKv<T>>,
    kv_dim: usize,
    /// How many positions hold something.
    pub len: usize,
}

/// Mathematical view of [`KvCache`]: for each layer its keys and its values, a row of
/// `kv_dim` numbers per position, filled or not.
pub struct KvView<T> {
    pub k: Seq<Seq<T>>,
    pub v: Seq<Seq<T>>,
    pub kv_dim: nat,
    pub len: nat,
}

impl<T> View for KvCache<T> {
    type V = KvView<T>;

    closed spec fn view(&self) -> KvView<T> {
        KvView {
            k: Seq::new(self.layers@.len(), |i: int| self.layers@[i].k@),
            v: Seq::new(self.layers@.len(), |i: int| self.layers@[i].v@),
            kv_dim: self.kv_dim as nat,
            len: self.len as nat,
        }
    }
}

impl<T> KvView<T> {
    /// All the layers have room for the same number of positions, at least for those
    /// that are filled.
    pub open spec fn room(self, positions: nat) -> bool {
        &&& self.len <= positions
        &&& positions * self.kv_dim <= usize::MAX
        &&& self.v.len() == self.k.len()
        &&& forall|i: int|
            0 <= i < self.k.len() ==> (#[trigger] self.k[i]).len() == positions * self.kv_dim
        &&& forall|i: int|
            0 <= i < self.v.len() ==> (#[trigger] self.v[i]).len() == positions * self.kv_dim
    }

    /// Where the first free row starts.
    pub open spec fn end(self) -> int {
        (self.len * self.kv_dim) as int
    }

    /// The keys of the first `n` positions of a layer.
    pub open spec fn k_upto(self, layer: int, n: nat) -> Seq<T> {
        self.k[layer].take((n * self.kv_dim) as int)
    }

    /// The values of the first `n` positions of a layer.
    pub open spec fn v_upto(self, layer: int, n: nat) -> Seq<T> {
        self.v[layer].take((n * self.kv_dim) as int)
    }
}

/// `s` with `part` put over it from position `at` on.
pub open spec fn overwritten<T>(s: Seq<T>, at: int, part: Seq<T>) -> Seq<T> {
    s.take(at) + part + s.skip(at + part.len())
}

fn filled<T: Copy>(n: usize, x: T) -> (r: Vec<T>)
    ensures
        r@ == Seq::new(n as nat, |i: int| x),
{
    let mut out: Vec<T> = Vec::new();
    let mut i: usize = 0;
    while i < n
        invariant
            i <= n,
            out@ == Seq::new(i as nat, |j: int| x),
        decreases n - i,
    {
        out.push(x);
        i += 1;
        assert(out@ =~= Seq::new(i as nat, |j: int| x));
    }
    out
}

fn put<T: Copy>(buf: &mut Vec<T>, at: usize, part: &[T])
    requires
        at + part@.len() <= old(buf)@.len(),
    ensures
        final(buf)@ == overwritten(old(buf)@, at as int, part@),
{
    let ghost before = buf@;
    let mut i: usize = 0;
    let total = buf.len();
    while i < part.len()
        invariant
            at + part@.len() <= total,
            total == before.len(),
            buf@.len() == before.len(),
            i <= part@.len(),
            forall|j: int|
                0 <= j < before.len() ==> #[trigger] buf@[j] == (if at <= j < at + i {
                    part@[j - at]
                } else {
                    before[j]
                }),
        decreases part@.len() - i,
    {
        buf[at + i] = part[i];
        i += 1;
    }
    assert(buf@ =~= overwritten(before, at as int, part@));
}

impl<T: Copy> KvCache<T> {
    /// An empty cache with room for `max_seq` positions; `zero` fills the room.
    pub fn new(config: &Config, max_seq: usize, zero: T) -> (r: Self)
        requires
            config.kv_width() <= usize::MAX,
            max_seq * config.kv_width() <= usize::MAX,
        ensures
            r@.len == 0,
            r@.kv_dim == config.kv_width(),
            r@.kv_dim == config.n_kv_heads * config.head_dim,
            r@.k.len() == config.n_layers,
            r@.room(max_seq as nat),
            forall|i: int, j: int|
                0 <= i < config.n_layers && 0 <= j < max_seq * config.kv_width()
                    ==> #[trigger] r@.k[i][j] == zero,
            forall|i: int, j: int|
                0 <= i < config.n_layers && 0 <= j < max_seq * config.kv_width()
                    ==> #[trigger] r@.v[i][j] == zero,
    {
        let kv_dim: usize = config.n_kv_heads * config.head_dim;
        let n: usize = max_seq * kv_dim;
        let mut layers: Vec<LayerKv<T>> = Vec::new();
        let mut i: usize = 0;
        while i < config.n_layers
            invariant
                i <= config.n_layers,
                layers@.len() == i,
                forall|j: int|
                    0 <= j < i ==> (#[trigger] layers@[j]).k@ == Seq::new(n as nat, |m: int| zero),
                forall|j: int|
                    0 <= j < i ==> (#[trigger] layers@[j]).v@ == Seq::new(n as nat, |m: int| zero),
            decreases config.n_layers - i,
        {
            layers.push(LayerKv { k: filled(n, zero), v: filled(n, zero) });
            i += 1;
        }
        KvCache { layers, kv_dim, len: 0 }
    }

    /// Forgets every position. The room stays as it is.
    pub fn reset(&mut self)
        ensures
            final(self)@ == (KvView { len: 0, ..old(self)@ }),
    {
        self.len = 0;
    }

    /// Writes keys and values of a layer after the positions that are filled.
    pub fn write(&mut self, layer: usize, k: &[T], v: &[T])
        requires
            layer < old(self)@.k.len(),
            layer < old(self)@.v.len(),
            old(self)@.end() + k@.len() <= old(self)@.k[layer as int].len(),
            old(self)@.end() + v@.len() <= old(self)@.v[layer as int].len(),
        ensures
            final(self)@.k == old(self)@.k.update(
                layer as int,
                overwritten(old(self)@.k[layer as int], old(self)@.end(), k@),
            ),
            final(self)@.v == old(self)@.v.update(
                layer as int,
                overwritten(old(self)@.v[layer as int], old(self)@.end(), v@),
            ),
            final(self)@.kv_dim == old(self)@.kv_dim,
            final(self)@.len == old(self)@.len,
    {
        let ghost before = self@;
        let size = self.layers[layer].k.len();
        assert(self.len * self.kv_dim <= size && self.len * self.kv_dim >= 0) by {
            assert(before.k[layer as int] == self.layers@[layer as int].k@);
            assert(self.len * self.kv_dim >= 0) by (nonlinear_arith)
                requires
                    self.len >= 0,
                    self.kv_dim >= 0,
            ;
        }
        let at: usize = self.len * self.kv_dim;
        put(&mut self.layers[layer].k, at, k);
        put(&mut self.layers[layer].v, at, v);
        proof {
            assert(self@.k =~= before.k.update(
                layer as int,
                overwritten(before.k[layer as int], before.end(), k@),
            ));
            assert(self@.v =~= before.v.update(
                layer as int,
                overwritten(before.v[layer as int], before.end(), v@),
            ));
        }
    }

    /// The keys of the first `n` positions of a layer.
    pub fn layer_k_upto(&self, layer: usize, n: usize) -> (r: &[T])
        requires
            layer < self@.k.len(),
            n * self@.kv_dim <= self@.k[layer as int].len(),
        ensures
            r@ == self@.k_upto(layer as int, n as nat),
    {
        let buf = self.layers[layer].k.as_slice();
        let size = buf.len();
        assert(n * self.kv_dim >= 0) by (nonlinear_arith)
            requires
                n >= 0,
                self.kv_dim >= 0,
        ;
        vstd::slice::slice_subrange(buf, 0, n * self.kv_dim)
    }

    /// The values of the first `n` positions of a layer.
    pub fn layer_v_upto(&self, layer: usize, n: usize) -> (r: &[T])
        requires
            layer < self@.v.len(),
            n * self@.kv_dim <= self@.v[layer as int].len(),
        ensures
            r@ == self@.v_upto(layer as int, n as nat),
    {
        let buf = self.layers[layer].v.as_slice();
        let size = buf.len();
        assert(n * self.kv_dim >= 0) by (nonlinear_arith)
            requires
                n >= 0,
                self.kv_dim >= 0,
        ;
        vstd::slice::slice_subrange(buf, 0, n * self.kv_dim)
    }

    /// Counts `n` more positions as filled.
    pub fn advance(&mut self, n: usize)
        requires
            old(self)@.len + n <= usize::MAX,
        ensures
            final(self)@ == (KvView { len: old(self)@.len + n as nat, ..old(self)@ }),
    {
        self.len = self.len + n;
    }
}

// ── laws ──

/// Writing a step keeps the room, and every position that was filled before.
pub proof fn writing_keeps_the_past<T>(
    before: KvView<T>,
    after: KvView<T>,
    positions: nat,
    layer: int,
    k: Seq<T>,
    v: Seq<T>,
)
    requires
        before.room(positions),
        0 <= layer < before.k.len(),
        before.end() + k.len() <= positions * before.kv_dim,
        before.end() + v.len() <= positions * before.kv_dim,
        after.k == before.k.update(layer, overwritten(before.k[layer], before.end(), k)),
        after.v == before.v.update(layer, overwritten(before.v[layer], before.end(), v)),
        after.kv_dim == before.kv_dim,
        after.len == before.len,
    ensures
        after.room(positions),
        forall|i: int|
            0 <= i < before.k.len() ==> #[trigger] after.k_upto(i, before.len) == before.k_upto(
                i,
                before.len,
            ),
        forall|i: int|
            0 <= i < before.v.len() ==> #[trigger] after.v_upto(i, before.len) == before.v_upto(
                i,
                before.len,
            ),
{
    assert(before.end() >= 0) by (nonlinear_arith)
        requires
            before.end() == before.len * before.kv_dim,
            before.len >= 0,
            before.kv_dim >= 0,
    ;
    assert forall|i: int| 0 <= i < before.k.len() implies #[trigger] after.k_upto(i, before.len)
        == before.k_upto(i, before.len) by {
        assert(after.k_upto(i, before.len) =~= before.k_upto(i, before.len));
    }
    assert forall|i: int| 0 <= i < before.v.len() implies #[trigger] after.v_upto(i, before.len)
        == before.v_upto(i, before.len) by {
        assert(after.v_upto(i, before.len) =~= before.v_upto(i, before.len));
    }
}

/// What was written reads back: once `n` positions were written to a layer and the
/// cache has advanced by `n`, the layer holds the past and then those positions.
pub proof fn written_positions_read_back<T>(
    before: KvView<T>,
    after: KvView<T>,
    positions: nat,
    layer: int,
    n: nat,
    k: Seq<T>,
    v: Seq<T>,
)
    requires
        before.room(positions),
        0 <= layer < before.k.len(),
        before.len + n <= positions,
        k.len() == n * before.kv_dim,
        v.len() == n * before.kv_dim,
        after.k[layer] == overwritten(before.k[layer], before.end(), k),
        after.v[layer] == overwritten(before.v[layer], before.end(), v),
        after.kv_dim == before.kv_dim,
        after.len == before.len + n,
    ensures
        after.k_upto(layer, after.len) == before.k_upto(layer, before.len) + k,
        after.v_upto(layer, after.len) == before.v_upto(layer, before.len) + v,
{
    let d = before.kv_dim;
    let len = before.len;
    assert((len + n) * d == len * d + n * d && len * d >= 0 && n * d >= 0) by (nonlinear_arith)
        requires
            len >= 0,
            n >= 0,
            d >= 0,
    ;
    assert((len + n) * d <= positions * d) by (nonlinear_arith)
        requires
            len + n <= positions,
    ;
    assert(after.k_upto(layer, after.len) =~= before.k_upto(layer, len) + k);
    assert(after.v_upto(layer, after.len) =~= before.v_upto(layer, len) + v);
}

} // verus!
