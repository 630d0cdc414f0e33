//! Chunk coordinates, the enumeration of a grid, and the request keys that
//! address chunks in the store.
use vstd::prelude::*;
use vstd::string::*;
use vstd::arithmetic::div_mod::{lemma_fundamental_div_mod, lemma_fundamental_div_mod_converse, lemma_div_denominator};

verus! {

/// Position of a chunk in a three-dimensional grid.
#[derive(Clone, Copy, Debug, PartialEq, Eq, Structural)]
pub struct ChunkCoordinate {
    pub x: u64,
    pub y: u64,
    pub z: u64,
}

/// Extents of a grid of chunks, one per dimension.
#[derive(Clone, Copy, Debug, PartialEq, Eq, Structural)]
pub struct GridShape {
    pub nx: u64,
    pub ny: u64,
    pub nz: u64,
}

impl GridShape {
    pub open spec fn cell_count(self) -> int {
        self.nx * self.ny * self.nz
    }

    pub open spec fn contains(self, c: ChunkCoordinate) -> bool {
        c.x < self.nx && c.y < self.ny && c.z < self.nz
    }

    /// The coordinate at position `i` of the row-major enumeration.
    pub open spec fn coordinate_at(self, i: int) -> ChunkCoordinate {
        ChunkCoordinate {
            x: (i / (self.ny * self.nz)) as u64,
            y: ((i / self.nz as int) % self.ny as int) as u64,
            z: (i % self.nz as int) as u64,
        }
    }

    /// Position of `c` in the row-major enumeration.
    pub open spec fn index_of(self, c: ChunkCoordinate) -> int {
        c.x * (self.ny * self.nz) + c.y * self.nz + c.z
    }
}

proof fn lemma_cell_count(g: GridShape)
    ensures
        g.cell_count() == g.nx * (g.ny * g.nz),
{
    assert(g.nx * g.ny * g.nz == g.nx * (g.ny * g.nz)) by (nonlinear_arith);
}

proof fn lemma_index_round_trip(g: GridShape, c: ChunkCoordinate)
    requires
        g.contains(c),
    ensures
        0 <= g.index_of(c) < g.cell_count(),
        g.coordinate_at(g.index_of(c)) == c,
{
    lemma_cell_count(g);
    let nyz = g.ny * g.nz;
    let i = g.index_of(c);
    let r = c.y * g.nz + c.z;
    assert(0 <= r < nyz) by (nonlinear_arith)
        requires
            r == c.y * g.nz + c.z,
            c.y < g.ny,
            c.z < g.nz,
            nyz == g.ny * g.nz,
    ;
    assert(i < g.cell_count()) by (nonlinear_arith)
        requires
            i == c.x * nyz + r,
            r < nyz,
            c.x < g.nx,
            g.cell_count() == g.nx * nyz,
    ;
    assert(0 <= i) by (nonlinear_arith)
        requires
            i == c.x * nyz + r,
            r >= 0,
            c.x >= 0,
            nyz >= 0,
    ;
    lemma_fundamental_div_mod_converse(i, nyz, c.x as int, r);
    let q = c.x * g.ny + c.y;
    assert(i == q * g.nz + c.z) by (nonlinear_arith)
        requires
            i == c.x * (g.ny * g.nz) + c.y * g.nz + c.z,
            q == c.x * g.ny + c.y,
    ;
    lemma_fundamental_div_mod_converse(i, g.nz as int, q, c.z as int);
    lemma_fundamental_div_mod_converse(q, g.ny as int, c.x as int, c.y as int);
}

proof fn lemma_coordinate_in_grid(g: GridShape, i: int)
    requires
        0 <= i < g.cell_count(),
    ensures
        g.contains(g.coordinate_at(i)),
        g.index_of(g.coordinate_at(i)) == i,
{
    lemma_cell_count(g);
    let nyz = g.ny * g.nz;
    assert(g.nx > 0 && nyz > 0) by (nonlinear_arith)
        requires
            0 <= i < g.nx * nyz,
            g.nx >= 0,
            nyz >= 0,
    ;
    assert(g.ny > 0 && g.nz > 0) by (nonlinear_arith)
        requires
            nyz == g.ny * g.nz,
            nyz > 0,
            g.ny >= 0,
            g.nz >= 0,
    ;
    lemma_div_denominator(i, g.nz as int, g.ny as int);
    assert(g.nz * g.ny == nyz) by (nonlinear_arith)
        requires
            nyz == g.ny * g.nz,
    ;
    let x = i / nyz;
    let q = i / g.nz as int;
    let y = q % g.ny as int;
    let z = i % g.nz as int;
    lemma_fundamental_div_mod(i, g.nz as int);
    lemma_fundamental_div_mod(q, g.ny as int);
    assert(q / g.ny as int == x);
    assert(x < g.nx) by (nonlinear_arith)
        requires
            x == i / nyz,
            i < g.nx * nyz,
            nyz > 0,
            i >= 0,
    ;
    assert(0 <= x) by (nonlinear_arith)
        requires
            x == i / nyz,
            nyz > 0,
            i >= 0,
    ;
    assert(i == x * nyz + y * g.nz + z) by (nonlinear_arith)
        requires
            i == g.nz * q + z,
            q == g.ny * x + y,
            nyz == g.ny * g.nz,
    ;
}

/// Every coordinate of the grid, each exactly once, in row-major order.
pub fn enumerate_grid(g: GridShape) -> (r: Vec<ChunkCoordinate>)
    requires
        g.cell_count() <= usize::MAX,
    ensures
        r@.len() == g.cell_count(),
        forall|i: int| 0 <= i < r@.len() ==> #[trigger] r@[i] == g.coordinate_at(i),
        forall|i: int| 0 <= i < r@.len() ==> g.contains(#[trigger] r@[i]),
        forall|i: int, j: int| 0 <= i < j < r@.len() ==> #[trigger] r@[i] != #[trigger] r@[j],
        forall|c: ChunkCoordinate| #[trigger] g.contains(c) ==> {
            &&& 0 <= g.index_of(c) < r@.len()
            &&& r@[g.index_of(c)] == c
        },
{
    let ghost total = g.cell_count();
    assert(0 <= total) by (nonlinear_arith)
        requires
            total == g.nx * g.ny * g.nz,
            g.nx >= 0,
            g.ny >= 0,
            g.nz >= 0,
    ;
    let mut r: Vec<ChunkCoordinate> = Vec::new();
    if g.nx == 0 || g.ny == 0 || g.nz == 0 {
        assert(total == 0) by (nonlinear_arith)
            requires
                total == g.nx * g.ny * g.nz,
                g.nx == 0 || g.ny == 0 || g.nz == 0,
        ;
        proof {
            assert forall|c: ChunkCoordinate| #[trigger] g.contains(c) implies {
                &&& 0 <= g.index_of(c) < r@.len()
                &&& r@[g.index_of(c)] == c
            } by {
                lemma_index_round_trip(g, c);
            }
        }
        return r;
    }
    proof {
        assert(usize::MAX <= u64::MAX);
        assert(g.ny * g.nz <= total) by (nonlinear_arith)
            requires
                total == g.nx * g.ny * g.nz,
                g.nx >= 1,
                g.ny >= 0,
                g.nz >= 0,
        ;
        assert(g.nx * (g.ny * g.nz) == total) by (nonlinear_arith)
            requires
                total == g.nx * g.ny * g.nz,
        ;
        assert(g.ny * g.nz > 0) by (nonlinear_arith)
            requires
                g.ny > 0,
                g.nz > 0,
        ;
        assert(g.ny * g.nz <= g.nx * (g.ny * g.nz)) by (nonlinear_arith)
            requires
                g.nx >= 1,
                g.ny * g.nz >= 0,
        ;
    }
    let nyz: u64 = g.ny * g.nz;
    let n: usize = (g.nx * nyz) as usize;
    let mut i: usize = 0;
    while i < n
        invariant
            n == total,
            nyz == g.ny * g.nz,
            nyz > 0,
            g.ny > 0,
            g.nz > 0,
            i <= n,
            r@.len() == i,
            forall|j: int| 0 <= j < i ==> #[trigger] r@[j] == g.coordinate_at(j),
        decreases n - i,
    {
        let ii = i as u64;
        let c = ChunkCoordinate { x: ii / nyz, y: (ii / g.nz) % g.ny, z: ii % g.nz };
        r.push(c);
        i = i + 1;
    }
    proof {
        assert forall|j: int| 0 <= j < r@.len() implies g.contains(#[trigger] r@[j]) by {
            lemma_coordinate_in_grid(g, j);
        }
        assert forall|a: int, b: int| 0 <= a < b < r@.len() implies #[trigger] r@[a]
            != #[trigger] r@[b] by {
            lemma_coordinate_in_grid(g, a);
            lemma_coordinate_in_grid(g, b);
        }
        assert forall|c: ChunkCoordinate| #[trigger] g.contains(c) implies {
            &&& 0 <= g.index_of(c) < r@.len()
            &&& r@[g.index_of(c)] == c
        } by {
            lemma_index_round_trip(g, c);
        }
    }
    r
}

/// The decimal digit character for `d`.
pub open spec fn digit_char(d: int) -> char {
    seq!['0', '1', '2', '3', '4', '5', '6', '7', '8', '9'][d]
}

/// Decimal representation of `n`, without leading zeros.
pub open spec fn decimal(n: nat) -> Seq<char>
    decreases n,
{
    if n < 10 {
        seq![digit_char(n as int)]
    } else {
        decimal(n / 10).push(digit_char((n % 10) as int))
    }
}

/// The request key of a coordinate: its components in decimal, joined by dots.
pub open spec fn key_of(c: ChunkCoordinate) -> Seq<char> {
    decimal(c.x as nat) + seq!['.'] + decimal(c.y as nat) + seq!['.'] + decimal(c.z as nat)
}

proof fn lemma_decimal_shape(n: nat)
    ensures
        decimal(n).len() >= 1,
        n < 10 <==> decimal(n).len() == 1,
        forall|i: int| 0 <= i < decimal(n).len() ==> #[trigger] decimal(n)[i] != '.',
    decreases n,
{
    if n >= 10 {
        lemma_decimal_shape(n / 10);
        let d = decimal(n / 10);
        assert forall|i: int| 0 <= i < decimal(n).len() implies #[trigger] decimal(n)[i] != '.' by {
            if i < d.len() {
                assert(decimal(n)[i] == d[i]);
            }
        }
    }
}

proof fn lemma_digit_injective(a: int, b: int)
    requires
        0 <= a < 10,
        0 <= b < 10,
        digit_char(a) == digit_char(b),
    ensures
        a == b,
{
    let d = seq!['0', '1', '2', '3', '4', '5', '6', '7', '8', '9'];
    assert(d[0] == '0' && d[1] == '1' && d[2] == '2' && d[3] == '3' && d[4] == '4');
    assert(d[5] == '5' && d[6] == '6' && d[7] == '7' && d[8] == '8' && d[9] == '9');
}

proof fn lemma_decimal_injective(m: nat, n: nat)
    requires
        decimal(m) == decimal(n),
    ensures
        m == n,
    decreases m,
{
    lemma_decimal_shape(m);
    lemma_decimal_shape(n);
    if m >= 10 {
        assert(decimal(m).drop_last() =~= decimal(m / 10));
        assert(decimal(n).drop_last() =~= decimal(n / 10));
        lemma_decimal_injective(m / 10, n / 10);
        assert(decimal(m).last() == digit_char((m % 10) as int));
        assert(decimal(n).last() == digit_char((n % 10) as int));
        lemma_digit_injective((m % 10) as int, (n % 10) as int);
    } else {
        assert(decimal(m)[0] == digit_char(m as int));
        assert(decimal(n)[0] == digit_char(n as int));
        lemma_digit_injective(m as int, n as int);
    }
}

proof fn lemma_split_at_dot(a1: Seq<char>, b1: Seq<char>, a2: Seq<char>, b2: Seq<char>)
    requires
        a1 + seq!['.'] + b1 == a2 + seq!['.'] + b2,
        forall|i: int| 0 <= i < a1.len() ==> #[trigger] a1[i] != '.',
        forall|i: int| 0 <= i < a2.len() ==> #[trigger] a2[i] != '.',
    ensures
        a1 == a2,
        b1 == b2,
{
    let s = a1 + seq!['.'] + b1;
    let t = a2 + seq!['.'] + b2;
    if a1.len() < a2.len() {
        assert(s[a1.len() as int] == '.');
        assert(t[a1.len() as int] == a2[a1.len() as int]);
    } else if a2.len() < a1.len() {
        assert(t[a2.len() as int] == '.');
        assert(s[a2.len() as int] == a1[a2.len() as int]);
    }
    assert(a1 =~= s.take(a1.len() as int));
    assert(a2 =~= t.take(a2.len() as int));
    assert(b1 =~= s.skip(a1.len() as int + 1));
    assert(b2 =~= t.skip(a2.len() as int + 1));
}

/// Distinct coordinates have distinct request keys.
pub proof fn law_chunk_key_injective(c1: ChunkCoordinate, c2: ChunkCoordinate)
    requires
        key_of(c1) == key_of(c2),
    ensures
        c1 == c2,
{
    let (x1, y1, z1) = (decimal(c1.x as nat), decimal(c1.y as nat), decimal(c1.z as nat));
    let (x2, y2, z2) = (decimal(c2.x as nat), decimal(c2.y as nat), decimal(c2.z as nat));
    lemma_decimal_shape(c1.x as nat);
    lemma_decimal_shape(c1.y as nat);
    lemma_decimal_shape(c2.x as nat);
    lemma_decimal_shape(c2.y as nat);
    assert(key_of(c1) =~= x1 + seq!['.'] + (y1 + seq!['.'] + z1));
    assert(key_of(c2) =~= x2 + seq!['.'] + (y2 + seq!['.'] + z2));
    lemma_split_at_dot(x1, y1 + seq!['.'] + z1, x2, y2 + seq!['.'] + z2);
    lemma_split_at_dot(y1, z1, y2, z2);
    lemma_decimal_injective(c1.x as nat, c2.x as nat);
    lemma_decimal_injective(c1.y as nat, c2.y as nat);
    lemma_decimal_injective(c1.z as nat, c2.z as nat);
}

fn push_digit(s: &mut String, d: u64)
    requires
        d < 10,
    ensures
        final(s)@ == old(s)@.push(digit_char(d as int)),
{
    proof {
        reveal_strlit("0");
        reveal_strlit("1");
        reveal_strlit("2");
        reveal_strlit("3");
        reveal_strlit("4");
        reveal_strlit("5");
        reveal_strlit("6");
        reveal_strlit("7");
        reveal_strlit("8");
        reveal_strlit("9");
    }
    let t: &str = match d {
        0 => "0",
        1 => "1",
        2 => "2",
        3 => "3",
        4 => "4",
        5 => "5",
        6 => "6",
        7 => "7",
        8 => "8",
        _ => "9",
    };
    s.append(t);
    assert(final(s)@ =~= old(s)@.push(digit_char(d as int)));
}

fn push_decimal(s: &mut String, n: u64)
    ensures
        final(s)@ == old(s)@ + decimal(n as nat),
    decreases n,
{
    if n >= 10 {
        push_decimal(s, n / 10);
    }
    push_digit(s, n % 10);
    assert(final(s)@ =~= old(s)@ + decimal(n as nat));
}

/// The request key of a coordinate, such as `1.0.3`.
pub fn chunk_key(c: ChunkCoordinate) -> (r: String)
    ensures
        r@ == key_of(c),
{
    let mut s = String::from_str("");
    proof {
        reveal_strlit("");
        reveal_strlit(".");
    }
    push_decimal(&mut s, c.x);
    s.append(".");
    push_decimal(&mut s, c.y);
    s.append(".");
    push_decimal(&mut s, c.z);
    assert(s@ =~= key_of(c));
    s
}

/// The location of a chunk's compressed payload: `{base}/{field}/{key}`.
pub fn chunk_url(base: &str, field: &str, c: ChunkCoordinate) -> (r: String)
    ensures
        r@ == base@ + seq!['/'] + field@ + seq!['/'] + key_of(c),
{
    proof {
        reveal_strlit("/");
    }
    let mut s = String::from_str(base);
    s.append("/");
    s.append(field);
    s.append("/");
    let k = chunk_key(c);
    s.append(k.as_str());
    assert(s@ =~= base@ + seq!['/'] + field@ + seq!['/'] + key_of(c));
    s
}

} // verus!
