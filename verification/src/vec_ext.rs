use vstd::prelude::*;

verus! {

/// What `replace_from` leaves in a row of cells: the cells from `index` on
/// are overwritten with the characters of `s`, stopping as soon as either the
/// row or `s` runs out; every other cell keeps its old value. The row never
/// grows.
pub open spec fn spec_replace_from(v: Seq<char>, index: int, s: Seq<char>) -> Seq<char> {
    Seq::new(
        v.len(),
        |i: int|
            if index <= i && i - index < s.len() {
                s[i - index]
            } else {
                v[i]
            },
    )
}

/// Extra in-place operations on a row of character cells.
pub trait VecExt: View<V = Seq<char>> {
    /// Pushes copies of `ch` until the vector's length reaches its allocated
    /// capacity. How many copies that takes depends on the capacity the
    /// allocator granted, so only the shape of the result is promised: the
    /// old contents, extended by some run of `ch`.
    fn fill_to_capacity(&mut self, ch: char)
        ensures
            old(self)@.len() <= final(self)@.len(),
            forall|i: int| 0 <= i < old(self)@.len() ==> final(self)@[i] == old(self)@[i],
            forall|i: int|
                old(self)@.len() <= i < final(self)@.len() ==> final(self)@[i] == ch,
    ;

    /// Overwrites cells starting at `index` with the characters of `string`,
    /// stopping at the end of the row: the row never grows.
    fn replace_from(&mut self, index: usize, string: &str)
        ensures
            final(self)@ == spec_replace_from(old(self)@, index as int, string@),
    ;
}

/// Relies on Vec::capacity: the allocated capacity. The value depends on
/// what the allocator granted, so nothing is promised of it.
#[verifier::external_body]
fn vec_capacity(v: &Vec<char>) -> usize {
    v.capacity()
}

impl VecExt for Vec<char> {
    fn fill_to_capacity(&mut self, ch: char) {
        let cap = vec_capacity(self);
        let len = self.len();
        let n = if cap > len {
            cap - len
        } else {
            0
        };
        let mut i: usize = 0;
        while i < n
            invariant
                old(self)@.len() <= self@.len(),
                forall|k: int| 0 <= k < old(self)@.len() ==> self@[k] == old(self)@[k],
                forall|k: int| old(self)@.len() <= k < self@.len() ==> self@[k] == ch,
            decreases n - i,
        {
            self.push(ch);
            i = i + 1;
        }
    }

    fn replace_from(&mut self, index: usize, string: &str) {
        let n = self.len();
        let m = string.unicode_len();
        let mut i = index;
        while i < n && i - index < m
            invariant
                index <= i,
                i - index <= m,
                n == self@.len(),
                n == old(self)@.len(),
                m == string@.len(),
                forall|k: int|
                    0 <= k < n && !(index <= k < i) ==> self@[k] == old(self)@[k],
                forall|k: int| index <= k < i ==> self@[k] == string@[k - index],
            decreases n - i,
        {
            let ch = string.get_char(i - index);
            self[i] = ch;
            i = i + 1;
        }
        proof {
            let r = spec_replace_from(old(self)@, index as int, string@);
            assert forall|k: int| 0 <= k < n implies self@[k] == r[k] by {
                if index <= k && k - index < m {
                    assert(k < i);
                }
            }
            assert(self@ =~= r);
        }
    }
}

} // verus!
