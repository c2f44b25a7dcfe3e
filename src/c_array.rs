use vstd::prelude::*;

verus! {

/// Offsets inside a two-dimensional array stay inside it.
pub proof fn lemma_offset2(x: int, y: int, s0: int, s1: int)
    requires
        0 <= x < s0,
        0 <= y,
        0 <= s1,
    ensures
        0 <= x * s1,
        y < s1 ==> x * s1 + y < s0 * s1,
        x * s1 + s1 <= s0 * s1,
{
    assert(0 <= x * s1) by (nonlinear_arith)
        requires
            0 <= x,
            0 <= s1,
    ;
    assert(x * s1 + s1 <= s0 * s1) by (nonlinear_arith)
        requires
            x + 1 <= s0,
            0 <= s1,
    ;
}

/// Offsets inside a three-dimensional array stay inside it.
pub proof fn lemma_offset3(x: int, y: int, z: int, s0: int, s1: int, s2: int)
    requires
        0 <= x < s0,
        0 <= y < s1,
        0 <= z < s2,
    ensures
        0 <= x * s1 * s2,
        0 <= y * s2,
        x * s1 * s2 + y * s2 + z < s0 * s1 * s2,
        x * s1 * s2 + y * s2 + s2 <= s0 * s1 * s2,
        x * s1 * s2 + s1 * s2 <= s0 * s1 * s2,
        x * s1 <= s0 * s1,
{
    lemma_offset2(y, z, s1, s2);
    lemma_offset2(x, y, s0, s1);
    assert(0 <= x * s1 * s2) by (nonlinear_arith)
        requires
            0 <= x * s1,
            0 <= s2,
    ;
    assert(x * s1 * s2 + s1 * s2 <= s0 * s1 * s2) by (nonlinear_arith)
        requires
            x + 1 <= s0,
            0 <= s1 * s2,
    ;
    assert(x * s1 * s2 == x * (s1 * s2)) by (nonlinear_arith);
    assert(s0 * s1 * s2 == s0 * (s1 * s2)) by (nonlinear_arith);
}

/// A dense row-major array of one, two or three dimensions, used to trade batches with
/// the predictor.
pub struct CArray<T> {
    pub size: Vec<usize>,
    pub array: Vec<T>,
}

impl<T: Copy + Default> CArray<T> {
    /// The number of elements that the dimensions call for.
    pub open spec fn spec_len(&self) -> int {
        if self.size@.len() == 1 {
            self.size@[0] as int
        } else if self.size@.len() == 2 {
            self.size@[0] * self.size@[1]
        } else {
            self.size@[0] * self.size@[1] * self.size@[2]
        }
    }

    /// One to three dimensions, and as many elements as they call for.
    pub open spec fn wf(&self) -> bool {
        &&& 1 <= self.size@.len() <= 3
        &&& self.array@.len() == self.spec_len()
        &&& self.size@.len() == 3 ==> self.size@[0] * self.size@[1] <= usize::MAX
    }

    /// `n` copies of `v`.
    fn filled(n: usize, v: T) -> (r: Vec<T>)
        ensures
            r@ == Seq::new(n as nat, |i: int| v),
    {
        let mut r: Vec<T> = Vec::new();
        while r.len() < n
            invariant
                r@.len() <= n,
                r@ == Seq::new(r@.len(), |i: int| v),
            decreases n - r@.len(),
        {
            r.push(v);
        }
        r
    }

    /// A one-dimensional array of `size` default values.
    pub fn new1(size: usize) -> (r: Self)
        ensures
            r.wf(),
            r.size@ == seq![size],
            forall|i: int| 0 <= i < size ==> #[trigger] r.array@[i] == r.array@[0],
    {
        Self { size: vec![size], array: Self::filled(size, T::default()) }
    }

    /// A `size_x` by `size_y` array of default values.
    pub fn new2(size_x: usize, size_y: usize) -> (r: Self)
        requires
            size_x * size_y <= usize::MAX,
        ensures
            r.wf(),
            r.size@ == seq![size_x, size_y],
            forall|i: int| 0 <= i < size_x * size_y ==> #[trigger] r.array@[i] == r.array@[0],
    {
        let size = vec![size_x, size_y];
        let array = Self::filled(size_x * size_y, T::default());
        Self { size, array }
    }

    /// A `size_x` by `size_y` by `size_z` array of default values.
    pub fn new3(size_x: usize, size_y: usize, size_z: usize) -> (r: Self)
        requires
            size_x * size_y <= usize::MAX,
            size_x * size_y * size_z <= usize::MAX,
        ensures
            r.wf(),
            r.size@ == seq![size_x, size_y, size_z],
            forall|i: int| 0 <= i < size_x * size_y * size_z ==> #[trigger] r.array@[i] == r.array@[0],
    {
        let size = vec![size_x, size_y, size_z];
        let array = Self::filled(size_x * size_y * size_z, T::default());
        Self { size, array }
    }

    /// The number of dimensions.
    pub fn dimension(&self) -> (r: usize)
        ensures
            r == self.size@.len(),
    {
        self.size.len()
    }

    /// The extent of each dimension.
    pub fn size(&self) -> (r: &[usize])
        ensures
            r@ == self.size@,
    {
        self.size.as_slice()
    }

    pub fn size0(&self) -> (r: usize)
        requires
            self.size@.len() >= 1,
        ensures
            r == self.size@[0],
    {
        self.size[0]
    }

    pub fn size1(&self) -> (r: usize)
        requires
            self.size@.len() >= 2,
        ensures
            r == self.size@[1],
    {
        self.size[1]
    }

    pub fn size2(&self) -> (r: usize)
        requires
            self.size@.len() >= 3,
        ensures
            r == self.size@[2],
    {
        self.size[2]
    }

    pub fn get1(&self, x: usize) -> (r: T)
        requires
            self.wf(),
            self.size@.len() == 1,
            x < self.size@[0],
        ensures
            r == self.array@[x as int],
    {
        self.array[x]
    }

    pub fn set1(&mut self, x: usize, v: T)
        requires
            old(self).wf(),
            old(self).size@.len() == 1,
            x < old(self).size@[0],
        ensures
            final(self).wf(),
            final(self).size@ == old(self).size@,
            final(self).array@ == old(self).array@.update(x as int, v),
    {
        self.array.set(x, v);
    }

    /// Row `x` of a two-dimensional array.
    pub fn ref2(&self, x: usize) -> (r: &[T])
        requires
            self.wf(),
            self.size@.len() == 2,
            x < self.size@[0],
        ensures
            r@ == self.array@.subrange(
                x * self.size@[1] as int,
                x * self.size@[1] + self.size@[1] as int,
            ),
    {
        let _len = self.array.len();
        proof {
            lemma_offset2(x as int, 0, self.size@[0] as int, self.size@[1] as int);
        }
        let s1 = self.size[1];
        let start = x * s1;
        let all = self.array.as_slice();
        &all[start..start + s1]
    }

    pub fn get2(&self, x: usize, y: usize) -> (r: T)
        requires
            self.wf(),
            self.size@.len() == 2,
            x < self.size@[0],
            y < self.size@[1],
        ensures
            r == self.array@[x * self.size@[1] + y],
    {
        let _len = self.array.len();
        proof {
            lemma_offset2(x as int, y as int, self.size@[0] as int, self.size@[1] as int);
        }
        self.array[x * self.size[1] + y]
    }

    pub fn set2(&mut self, x: usize, y: usize, v: T)
        requires
            old(self).wf(),
            old(self).size@.len() == 2,
            x < old(self).size@[0],
            y < old(self).size@[1],
        ensures
            final(self).wf(),
            final(self).size@ == old(self).size@,
            final(self).array@ == old(self).array@.update(x * old(self).size@[1] + y, v),
    {
        let _len = self.array.len();
        proof {
            lemma_offset2(x as int, y as int, self.size@[0] as int, self.size@[1] as int);
        }
        let i = x * self.size[1] + y;
        self.array.set(i, v);
    }

    /// Plane `x` of a three-dimensional array.
    pub fn ref3_1(&self, x: usize) -> (r: &[T])
        requires
            self.wf(),
            self.size@.len() == 3,
            x < self.size@[0],
        ensures
            r@ == self.array@.subrange(
                x * self.size@[1] * self.size@[2],
                x * self.size@[1] * self.size@[2] + self.size@[1] * self.size@[2],
            ),
    {
        let _len = self.array.len();
        proof {
            if self.size@[1] > 0 && self.size@[2] > 0 {
                lemma_offset3(
                    x as int,
                    0,
                    0,
                    self.size@[0] as int,
                    self.size@[1] as int,
                    self.size@[2] as int,
                );
            } else {
                lemma_offset2(x as int, 0, self.size@[0] as int, self.size@[1] as int);
                assert(x * self.size@[1] * self.size@[2] == 0 && self.size@[1] * self.size@[2]
                    == 0) by (nonlinear_arith)
                    requires
                        self.size@[1] == 0 || self.size@[2] == 0,
                ;
            }
        }
        let s1 = self.size[1];
        let s2 = self.size[2];
        let start = x * s1 * s2;
        let all = self.array.as_slice();
        &all[start..start + s1 * s2]
    }

    /// Line `(x, y)` of a three-dimensional array.
    pub fn ref3_2(&self, x: usize, y: usize) -> (r: &[T])
        requires
            self.wf(),
            self.size@.len() == 3,
            x < self.size@[0],
            y < self.size@[1],
        ensures
            r@ == self.array@.subrange(
                x * self.size@[1] * self.size@[2] + y * self.size@[2],
                x * self.size@[1] * self.size@[2] + y * self.size@[2] + self.size@[2],
            ),
    {
        let _len = self.array.len();
        proof {
            if self.size@[2] > 0 {
                lemma_offset3(
                    x as int,
                    y as int,
                    0,
                    self.size@[0] as int,
                    self.size@[1] as int,
                    self.size@[2] as int,
                );
            } else {
                lemma_offset2(x as int, y as int, self.size@[0] as int, self.size@[1] as int);
                assert(x * self.size@[1] * self.size@[2] == 0 && y * self.size@[2] == 0)
                    by (nonlinear_arith)
                    requires
                        self.size@[2] == 0,
                ;
            }
        }
        let s1 = self.size[1];
        let s2 = self.size[2];
        let start = x * s1 * s2 + y * s2;
        let all = self.array.as_slice();
        &all[start..start + s2]
    }

    pub fn get3(&self, x: usize, y: usize, z: usize) -> (r: T)
        requires
            self.wf(),
            self.size@.len() == 3,
            x < self.size@[0],
            y < self.size@[1],
            z < self.size@[2],
        ensures
            r == self.array@[x * self.size@[1] * self.size@[2] + y * self.size@[2] + z],
    {
        let _len = self.array.len();
        proof {
            lemma_offset3(
                x as int,
                y as int,
                z as int,
                self.size@[0] as int,
                self.size@[1] as int,
                self.size@[2] as int,
            );
        }
        self.array[x * self.size[1] * self.size[2] + y * self.size[2] + z]
    }

    pub fn set3(&mut self, x: usize, y: usize, z: usize, v: T)
        requires
            old(self).wf(),
            old(self).size@.len() == 3,
            x < old(self).size@[0],
            y < old(self).size@[1],
            z < old(self).size@[2],
        ensures
            final(self).wf(),
            final(self).size@ == old(self).size@,
            final(self).array@ == old(self).array@.update(
                x * old(self).size@[1] * old(self).size@[2] + y * old(self).size@[2] + z,
                v,
            ),
    {
        let _len = self.array.len();
        proof {
            lemma_offset3(
                x as int,
                y as int,
                z as int,
                self.size@[0] as int,
                self.size@[1] as int,
                self.size@[2] as int,
            );
        }
        let i = x * self.size[1] * self.size[2] + y * self.size[2] + z;
        self.array.set(i, v);
    }

    /// The elements from `start` to `start + len`, to write through.
    fn window_mut(&mut self, start: usize, len: usize) -> (r: &mut [T])
        requires
            start + len <= old(self).array@.len(),
        ensures
            r@ == old(self).array@.subrange(start as int, start + len),
            final(self).size@ == old(self).size@,
            final(self).array@ == old(self).array@.subrange(0, start as int) + final(r)@
                + old(self).array@.subrange(start + len, old(self).array@.len() as int),
    {
        let all = self.array.as_mut_slice();
        let (_, rest) = all.split_at_mut(start);
        let (part, _) = rest.split_at_mut(len);
        part
    }

    /// Row `x` of a two-dimensional array, to write through.
    pub fn ref_mut2(&mut self, x: usize) -> (r: &mut [T])
        requires
            old(self).wf(),
            old(self).size@.len() == 2,
            x < old(self).size@[0],
        ensures
            r@ == old(self).array@.subrange(
                x * old(self).size@[1] as int,
                x * old(self).size@[1] + old(self).size@[1] as int,
            ),
            final(self).size@ == old(self).size@,
            final(self).array@ == old(self).array@.subrange(0, x * old(self).size@[1] as int)
                + final(r)@ + old(self).array@.subrange(
                x * old(self).size@[1] + old(self).size@[1] as int,
                old(self).array@.len() as int,
            ),
    {
        let _len = self.array.len();
        proof {
            lemma_offset2(x as int, 0, self.size@[0] as int, self.size@[1] as int);
        }
        let s1 = self.size[1];
        self.window_mut(x * s1, s1)
    }

    /// Plane `x` of a three-dimensional array, to write through.
    pub fn ref_mut3_1(&mut self, x: usize) -> (r: &mut [T])
        requires
            old(self).wf(),
            old(self).size@.len() == 3,
            x < old(self).size@[0],
        ensures
            r@ == old(self).array@.subrange(
                x * old(self).size@[1] * old(self).size@[2],
                x * old(self).size@[1] * old(self).size@[2] + old(self).size@[1] * old(
                    self,
                ).size@[2],
            ),
            final(self).size@ == old(self).size@,
            final(self).array@ == old(self).array@.subrange(
                0,
                x * old(self).size@[1] * old(self).size@[2],
            ) + final(r)@ + old(self).array@.subrange(
                x * old(self).size@[1] * old(self).size@[2] + old(self).size@[1] * old(
                    self,
                ).size@[2],
                old(self).array@.len() as int,
            ),
    {
        let _len = self.array.len();
        proof {
            if self.size@[1] > 0 && self.size@[2] > 0 {
                lemma_offset3(
                    x as int,
                    0,
                    0,
                    self.size@[0] as int,
                    self.size@[1] as int,
                    self.size@[2] as int,
                );
            } else {
                lemma_offset2(x as int, 0, self.size@[0] as int, self.size@[1] as int);
                assert(x * self.size@[1] * self.size@[2] == 0 && self.size@[1] * self.size@[2]
                    == 0) by (nonlinear_arith)
                    requires
                        self.size@[1] == 0 || self.size@[2] == 0,
                ;
            }
        }
        let s1 = self.size[1];
        let s2 = self.size[2];
        self.window_mut(x * s1 * s2, s1 * s2)
    }

    /// Line `(x, y)` of a three-dimensional array, to write through.
    pub fn ref_mut3_2(&mut self, x: usize, y: usize) -> (r: &mut [T])
        requires
            old(self).wf(),
            old(self).size@.len() == 3,
            x < old(self).size@[0],
            y < old(self).size@[1],
        ensures
            r@ == old(self).array@.subrange(
                x * old(self).size@[1] * old(self).size@[2] + y * old(self).size@[2],
                x * old(self).size@[1] * old(self).size@[2] + y * old(self).size@[2] + old(
                    self,
                ).size@[2],
            ),
            final(self).size@ == old(self).size@,
            final(self).array@ == old(self).array@.subrange(
                0,
                x * old(self).size@[1] * old(self).size@[2] + y * old(self).size@[2],
            ) + final(r)@ + old(self).array@.subrange(
                x * old(self).size@[1] * old(self).size@[2] + y * old(self).size@[2] + old(
                    self,
                ).size@[2],
                old(self).array@.len() as int,
            ),
    {
        let _len = self.array.len();
        proof {
            if self.size@[2] > 0 {
                lemma_offset3(
                    x as int,
                    y as int,
                    0,
                    self.size@[0] as int,
                    self.size@[1] as int,
                    self.size@[2] as int,
                );
            } else {
                lemma_offset2(x as int, y as int, self.size@[0] as int, self.size@[1] as int);
                assert(x * self.size@[1] * self.size@[2] == 0 && y * self.size@[2] == 0)
                    by (nonlinear_arith)
                    requires
                        self.size@[2] == 0,
                ;
            }
        }
        let s1 = self.size[1];
        let s2 = self.size[2];
        self.window_mut(x * s1 * s2 + y * s2, s2)
    }

    /// All elements in row-major order, to write through.
    pub fn as_mut(&mut self) -> (r: &mut [T])
        ensures
            r@ == old(self).array@,
            final(self).size@ == old(self).size@,
            final(self).array@ == final(r)@,
    {
        self.array.as_mut_slice()
    }

    /// All elements, in row-major order.
    pub fn as_ref(&self) -> (r: &[T])
        ensures
            r@ == self.array@,
    {
        self.array.as_slice()
    }
}

} // verus!
