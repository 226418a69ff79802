use vstd::prelude::*;

verus! {

/// `pat` occurs in `s` at index `i`.
pub open spec fn occurs_at(s: Seq<u8>, pat: Seq<u8>, i: int) -> bool {
    0 <= i && i + pat.len() <= s.len() && s.subrange(i, i + pat.len()) == pat
}

/// `i` is the first index at which `pat` occurs in `s`.
pub open spec fn first_occurrence(s: Seq<u8>, pat: Seq<u8>, i: int) -> bool {
    occurs_at(s, pat, i) && forall|k: int| 0 <= k < i ==> !occurs_at(s, pat, k)
}

/// The end of the header of an HTTP request: CR LF CR LF.
pub open spec fn crlf_crlf() -> Seq<u8> {
    seq![13u8, 10u8, 13u8, 10u8]
}

/// The end of the header when lines end in LF alone: LF LF.
pub open spec fn lf_lf() -> Seq<u8> {
    seq![10u8, 10u8]
}

/// Index of the first occurrence of the `n`-byte pattern `pat` (n is 2 or 4) in `s`.
fn find_pattern(s: &[u8], pat: [u8; 4], n: usize) -> (r: Option<usize>)
    requires
        n == 2 || n == 4,
    ensures
        r matches Some(i) ==> first_occurrence(s@, pat@.subrange(0, n as int), i as int),
        r is None ==> forall|k: int| 0 <= k ==> !occurs_at(s@, pat@.subrange(0, n as int), k),
{
    let ghost p = pat@.subrange(0, n as int);
    if s.len() < n {
        return None;
    }
    let last = s.len() - n;
    let mut i: usize = 0;
    while i <= last
        invariant
            0 <= i <= last + 1,
            last + n == s.len(),
            s.len() == s@.len(),
            n == 2 || n == 4,
            p == pat@.subrange(0, n as int),
            forall|k: int| 0 <= k < i ==> !occurs_at(s@, p, k),
        decreases last + 1 - i,
    {
        let mut j: usize = 0;
        let mut same = true;
        while j < n
            invariant
                0 <= j <= n,
                i + n <= s.len(),
                s.len() == s@.len(),
                n == 2 || n == 4,
                same == forall|m: int| 0 <= m < j ==> s@[i + m] == pat@[m],
            decreases n - j,
        {
            if s[i + j] != pat[j] {
                same = false;
            }
            j = j + 1;
        }
        proof {
            if same {
                assert(s@.subrange(i as int, i + n) =~= p);
            } else {
                if occurs_at(s@, p, i as int) {
                    assert forall|m: int| 0 <= m < n implies s@[i + m] == pat@[m] by {
                        assert(s@.subrange(i as int, i + n)[m] == p[m]);
                    }
                }
            }
        }
        if same {
            return Some(i);
        }
        i = i + 1;
    }
    None
}

/// The body of an HTTP request: what follows the first blank line (CR LF CR LF, or else
/// LF LF); empty when there is none.
pub fn extract_body(request: &[u8]) -> (body: &[u8])
    ensures
        (exists|i: int| first_occurrence(request@, crlf_crlf(), i) && body@ == request@.subrange(
            i + 4,
            request@.len() as int,
        )) || ((forall|k: int| 0 <= k ==> !occurs_at(request@, crlf_crlf(), k)) && (exists|j: int|
            first_occurrence(request@, lf_lf(), j) && body@ == request@.subrange(
                j + 2,
                request@.len() as int,
            ))) || ((forall|k: int| 0 <= k ==> !occurs_at(request@, crlf_crlf(), k)) && (forall|k: int|
            0 <= k ==> !occurs_at(request@, lf_lf(), k)) && body@.len() == 0),
{
    let pat = [13u8, 10u8, 13u8, 10u8];
    proof {
        assert(pat@.subrange(0, 4) =~= crlf_crlf());
    }
    assert(request.len() == request@.len());
    if let Some(i) = find_pattern(request, pat, 4) {
        return &request[i + 4..request.len()];
    }
    let pat2 = [10u8, 10u8, 0u8, 0u8];
    proof {
        assert(pat2@.subrange(0, 2) =~= lf_lf());
    }
    if let Some(j) = find_pattern(request, pat2, 2) {
        return &request[j + 2..request.len()];
    }
    &request[0..0]
}

} // verus!
