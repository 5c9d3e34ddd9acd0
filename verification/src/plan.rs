//! What a graph is bound to: the sizes of its dimensions, its ports with their shapes, and the index
//! tables that it gathers by.
use vstd::prelude::*;
use vstd::string::*;

verus! {

broadcast use vstd::string::group_string_axioms;

/// What a port holds.
#[derive(Clone, Copy, PartialEq, Eq, Structural)]
pub enum Elem {
    /// Halves of 16 bits.
    Half,
    /// Singles of 32 bits.
    Single,
    /// Integers of 64 bits.
    Long,
    /// Truth values.
    Flag,
}

/// The size of a named dimension.
pub struct Dimension {
    pub name: String,
    pub size: usize,
}

impl View for Dimension {
    type V = (Seq<char>, int);

    open spec fn view(&self) -> (Seq<char>, int) {
        (self.name@, self.size as int)
    }
}

/// A port with a buffer of its own.
pub struct Port {
    pub name: String,
    pub elem: Elem,
    pub shape: Vec<usize>,
}

/// What a [`Port`] says.
pub struct PortValue {
    pub name: Seq<char>,
    pub elem: Elem,
    pub shape: Seq<usize>,
}

impl View for Port {
    type V = PortValue;

    open spec fn view(&self) -> PortValue {
        PortValue { name: self.name@, elem: self.elem, shape: self.shape@ }
    }
}

/// An index table that is put into an input port.
pub struct Table {
    pub name: String,
    pub values: Vec<i64>,
}

impl View for Table {
    type V = (Seq<char>, Seq<i64>);

    open spec fn view(&self) -> (Seq<char>, Seq<i64>) {
        (self.name@, self.values@)
    }
}

pub open spec fn dimensions(xs: Seq<Dimension>) -> Seq<(Seq<char>, int)> {
    Seq::new(xs.len(), |i: int| xs[i]@)
}

pub open spec fn ports(xs: Seq<Port>) -> Seq<PortValue> {
    Seq::new(xs.len(), |i: int| xs[i]@)
}

pub open spec fn tables(xs: Seq<Table>) -> Seq<(Seq<char>, Seq<i64>)> {
    Seq::new(xs.len(), |i: int| xs[i]@)
}

/// Adds the size of a dimension.
pub fn put_dimension(out: &mut Vec<Dimension>, name: &str, size: usize)
    ensures
        dimensions(final(out)@) == dimensions(old(out)@).push((name@, size as int)),
{
    out.push(Dimension { name: name.to_owned(), size });
    assert(dimensions(out@) =~= dimensions(old(out)@).push((name@, size as int)));
}

/// Adds a port.
pub fn put_port(out: &mut Vec<Port>, name: &str, elem: Elem, shape: Vec<usize>)
    ensures
        ports(final(out)@) == ports(old(out)@).push(PortValue { name: name@, elem, shape: shape@ }),
{
    out.push(Port { name: name.to_owned(), elem, shape });
    assert(ports(out@) =~= ports(old(out)@).push(PortValue { name: name@, elem, shape: shape@ }));
}

/// Adds an index table.
pub fn put_table(out: &mut Vec<Table>, name: &str, values: Vec<i64>)
    ensures
        tables(final(out)@) == tables(old(out)@).push((name@, values@)),
{
    out.push(Table { name: name.to_owned(), values });
    assert(tables(out@) =~= tables(old(out)@).push((name@, values@)));
}

/// The shape of a single value.
pub fn shape0() -> (r: Vec<usize>)
    ensures
        r@ == Seq::<usize>::empty(),
{
    Vec::new()
}

pub fn shape1(a: usize) -> (r: Vec<usize>)
    ensures
        r@ == seq![a],
{
    let r: Vec<usize> = vec![a];
    assert(r@ =~= seq![a]);
    r
}

pub fn shape2(a: usize, b: usize) -> (r: Vec<usize>)
    ensures
        r@ == seq![a, b],
{
    let r: Vec<usize> = vec![a, b];
    assert(r@ =~= seq![a, b]);
    r
}

pub fn shape3(a: usize, b: usize, c: usize) -> (r: Vec<usize>)
    ensures
        r@ == seq![a, b, c],
{
    let r: Vec<usize> = vec![a, b, c];
    assert(r@ =~= seq![a, b, c]);
    r
}

/// The bytes of one element.
pub open spec fn width_of(elem: Elem) -> int {
    match elem {
        Elem::Half => 2,
        Elem::Single => 4,
        Elem::Long => 8,
        Elem::Flag => 1,
    }
}

/// `first` times every dimension.
pub open spec fn product(first: int, shape: Seq<usize>) -> int
    decreases shape.len(),
{
    if shape.len() == 0 {
        first
    } else {
        product(first, shape.drop_last()) * shape.last()
    }
}

/// Whether `first` times the dimensions can be counted at every step.
pub open spec fn product_countable(first: int, shape: Seq<usize>) -> bool {
    forall|n: int| 0 <= n <= shape.len() ==> #[trigger] product(first, shape.take(n)) <= usize::MAX
}

/// `first` times every dimension, where that can be counted at every step.
pub fn checked_product(first: usize, shape: &Vec<usize>) -> (r: Option<usize>)
    ensures
        if product_countable(first as int, shape@) {
            r == Some(product(first as int, shape@) as usize) && 0 <= product(first as int, shape@)
        } else {
            r is None
        },
{
    let mut n: usize = first;
    let mut i: usize = 0;
    assert(shape@.take(0) =~= Seq::<usize>::empty());
    while i < shape.len()
        invariant
            i <= shape@.len(),
            n == product(first as int, shape@.take(i as int)),
            forall|k: int| 0 <= k <= i ==> #[trigger] product(first as int, shape@.take(k)) <= usize::MAX,
        decreases shape@.len() - i,
    {
        let d: usize = shape[i];
        let ghost next = shape@.take(i + 1);
        assert(next.drop_last() =~= shape@.take(i as int));
        assert(product(first as int, next) == n * d);
        match n.checked_mul(d) {
            Some(m) => {
                n = m;
            },
            None => {
                return None;
            },
        }
        i += 1;
    }
    assert(shape@.take(shape@.len() as int) =~= shape@);
    Some(n)
}

/// The bytes of a buffer, or why it cannot be had.
pub fn buffer_bytes(elem: Elem, shape: &Vec<usize>) -> (r: Result<usize, String>)
    ensures
        if product_countable(width_of(elem), shape@) {
            r == Ok::<usize, String>(product(width_of(elem), shape@) as usize)
        } else {
            r matches Err(e) && e@ == "device buffer size overflow"@
        },
{
    let width: usize = match elem {
        Elem::Half => 2,
        Elem::Single => 4,
        Elem::Long => 8,
        Elem::Flag => 1,
    };
    match checked_product(width, shape) {
        Some(n) => Ok(n),
        None => Err("device buffer size overflow".to_owned()),
    }
}

/// Whether all dimensions that a graph reports are sizes.
pub open spec fn all_sizes(dims: Seq<i64>) -> bool {
    forall|i: int| 0 <= i < dims.len() ==> 0 <= #[trigger] dims[i] <= usize::MAX
}

/// The dimensions that a graph reports, as sizes.
pub open spec fn sizes(dims: Seq<i64>) -> Seq<usize> {
    Seq::new(dims.len(), |i: int| dims[i] as usize)
}

/// The elements of a tensor whose graph reports `dims`: none where a dimension is open, or where
/// they cannot be counted.
pub fn element_count(dims: &Vec<i64>) -> (r: Option<usize>)
    ensures
        if all_sizes(dims@) && product_countable(1, sizes(dims@)) {
            r == Some(product(1, sizes(dims@)) as usize)
        } else {
            r is None
        },
{
    let mut shape: Vec<usize> = Vec::new();
    let mut i: usize = 0;
    while i < dims.len()
        invariant
            i <= dims@.len(),
            shape@ == sizes(dims@).take(i as int),
            forall|j: int| 0 <= j < i ==> 0 <= #[trigger] dims@[j] <= usize::MAX,
        decreases dims@.len() - i,
    {
        let d: i64 = dims[i];
        if d < 0 || d as u64 > usize::MAX as u64 {
            return None;
        }
        shape.push(d as usize);
        i += 1;
        assert(shape@ =~= sizes(dims@).take(i as int));
    }
    assert(sizes(dims@).take(dims@.len() as int) =~= sizes(dims@));
    checked_product(1, &shape)
}

/// The integers from `from` to below `to`.
pub open spec fn range_of(from: int, to: int) -> Seq<i64> {
    Seq::new((to - from) as nat, |i: int| (from + i) as i64)
}

/// The integers from `from` to below `to`.
pub fn range(from: usize, to: usize) -> (r: Vec<i64>)
    requires
        from <= to <= i64::MAX,
    ensures
        r@ == range_of(from as int, to as int),
{
    let mut out: Vec<i64> = Vec::new();
    let mut i: usize = from;
    while i < to
        invariant
            from <= i <= to <= i64::MAX,
            out@ == range_of(from as int, i as int),
        decreases to - i,
    {
        out.push(i as i64);
        i += 1;
        assert(out@ =~= range_of(from as int, i as int));
    }
    out
}

/// The elements of a shape are the product of its dimensions, and its bytes as many times two, four, eight or
/// one.
pub proof fn law_sizes_multiply(first: int, a: usize, b: usize, c: usize)
    ensures
        product(first, Seq::empty()) == first,
        product(first, seq![a]) == first * a,
        product(first, seq![a, b]) == first * a * b,
        product(first, seq![a, b, c]) == first * a * b * c,
        width_of(Elem::Half) == 2,
        width_of(Elem::Single) == 4,
        width_of(Elem::Long) == 8,
        width_of(Elem::Flag) == 1,
{
    reveal_with_fuel(product, 4);
    assert(seq![a].drop_last() =~= Seq::<usize>::empty());
    assert(seq![a, b].drop_last() =~= seq![a]);
    assert(seq![a, b, c].drop_last() =~= seq![a, b]);
}

/// Whatever the dimensions are, one more multiplies.
pub proof fn law_one_more_dimension_multiplies(first: int, shape: Seq<usize>, d: usize)
    ensures
        product(first, shape.push(d)) == product(first, shape) * d,
{
    assert(shape.push(d).drop_last() =~= shape);
}

/// A range counts up by one from its start to below its end.
pub proof fn law_ranges_count_up(from: int, to: int, i: int)
    requires
        0 <= from <= to <= i64::MAX,
        from <= i < to,
    ensures
        range_of(from, to).len() == to - from,
        range_of(from, to)[i - from] == i,
{
}

/// Reported dimensions are sizes where none is negative.
pub proof fn law_open_dimensions_are_no_sizes(dims: Seq<i64>, i: int)
    requires
        0 <= i < dims.len(),
    ensures
        dims[i] < 0 ==> !all_sizes(dims),
        all_sizes(dims) ==> sizes(dims).len() == dims.len() && sizes(dims)[i] == dims[i],
{
}

} // verus!
