//! Dimension-checked elementwise operations on policy vectors.
use vstd::prelude::*;

verus! {

/// Two operands of a vector operation do not both have the configured length.
#[derive(Debug, Clone, Copy, PartialEq, Eq, Structural)]
pub struct DimensionMismatch {
    pub expected: usize,
    pub found: usize,
}

/// Checks that `a` and `b` both have length `dims`.
pub fn check_pair<T>(a: &Vec<T>, b: &Vec<T>, dims: usize) -> (r: Result<(), DimensionMismatch>)
    ensures
        r is Ok <==> (a@.len() == dims && b@.len() == dims),
        r matches Err(e) ==> e.expected == dims && (e.found == a@.len() || e.found == b@.len())
            && e.found != dims,
{
    if a.len() != dims {
        Err(DimensionMismatch { expected: dims, found: a.len() })
    } else if b.len() != dims {
        Err(DimensionMismatch { expected: dims, found: b.len() })
    } else {
        Ok(())
    }
}

/// Combines `a` and `b` component by component with `op`, after checking
/// that both have length `dims`.
pub fn zip_with<T: Copy, F: Fn(T, T) -> T>(a: &Vec<T>, b: &Vec<T>, dims: usize, op: F) -> (r:
    Result<Vec<T>, DimensionMismatch>)
    requires
        forall|i: int| 0 <= i < a@.len() && i < b@.len() ==> op.requires((a@[i], b@[i])),
    ensures
        r is Ok <==> (a@.len() == dims && b@.len() == dims),
        r matches Err(e) ==> e.expected == dims && (e.found == a@.len() || e.found == b@.len())
            && e.found != dims,
        r matches Ok(v) ==> v@.len() == dims && forall|i: int|
            0 <= i < dims ==> op.ensures((a@[i], b@[i]), #[trigger] v@[i]),
{
    match check_pair(a, b, dims) {
        Err(e) => Err(e),
        Ok(()) => {
            let mut out: Vec<T> = Vec::with_capacity(dims);
            let mut i: usize = 0;
            while i < dims
                invariant
                    i <= dims,
                    a@.len() == dims,
                    b@.len() == dims,
                    out@.len() == i,
                    forall|k: int| 0 <= k < a@.len() && k < b@.len() ==> op.requires((a@[k], b@[k])),
                    forall|k: int| 0 <= k < i ==> op.ensures((a@[k], b@[k]), #[trigger] out@[k]),
                decreases dims - i,
            {
                let x = op(a[i], b[i]);
                out.push(x);
                i = i + 1;
            }
            Ok(out)
        },
    }
}

/// Applies `op` to every component of `v`, after checking that `v` has
/// length `dims`.
pub fn map_each<T: Copy, F: Fn(T) -> T>(v: &Vec<T>, dims: usize, op: F) -> (r: Result<
    Vec<T>,
    DimensionMismatch,
>)
    requires
        forall|i: int| 0 <= i < v@.len() ==> op.requires((v@[i],)),
    ensures
        r is Ok <==> v@.len() == dims,
        r matches Err(e) ==> e.expected == dims && e.found == v@.len(),
        r matches Ok(w) ==> w@.len() == dims && forall|i: int|
            0 <= i < dims ==> op.ensures((v@[i],), #[trigger] w@[i]),
{
    if v.len() != dims {
        return Err(DimensionMismatch { expected: dims, found: v.len() });
    }
    let mut out: Vec<T> = Vec::with_capacity(dims);
    let mut i: usize = 0;
    while i < dims
        invariant
            i <= dims,
            v@.len() == dims,
            out@.len() == i,
            forall|k: int| 0 <= k < v@.len() ==> op.requires((v@[k],)),
            forall|k: int| 0 <= k < i ==> op.ensures((v@[k],), #[trigger] out@[k]),
        decreases dims - i,
    {
        let x = op(v[i]);
        out.push(x);
        i = i + 1;
    }
    Ok(out)
}

} // verus!
