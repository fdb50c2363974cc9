//! Small helpers shared by the service layer: rendering an error chain as
//! one string, and the message reported when the facade's lock is poisoned.

use vstd::prelude::*;

verus! {

/// The descriptions joined with the delimiter between consecutive ones.
pub open spec fn spec_join(parts: Seq<Seq<char>>, delimiter: Seq<char>) -> Seq<char>
    decreases parts.len(),
{
    if parts.len() == 0 {
        Seq::<char>::empty()
    } else if parts.len() == 1 {
        parts[0]
    } else {
        parts[0] + delimiter + spec_join(parts.drop_first(), delimiter)
    }
}

/// Joining distributes over taking one more part at the back.
proof fn lemma_join_take_step(parts: Seq<Seq<char>>, delimiter: Seq<char>, k: int)
    requires
        0 <= k < parts.len(),
    ensures
        spec_join(parts.take(k + 1), delimiter) == if k == 0 {
            parts[0]
        } else {
            spec_join(parts.take(k), delimiter) + delimiter + parts[k]
        },
    decreases k,
{
    if k == 0 {
        assert(parts.take(1).len() == 1);
        assert(parts.take(1)[0] == parts[0]);
    } else {
        assert(parts.take(k + 1)[0] == parts[0]);
        assert(parts.take(k)[0] == parts[0]);
        assert(parts.take(k + 1).drop_first() =~= parts.drop_first().take(k));
        assert(parts.take(k).drop_first() =~= parts.drop_first().take(k - 1));
        lemma_join_take_step(parts.drop_first(), delimiter, k - 1);
        assert(parts.drop_first()[k - 1] == parts[k]);
        if k == 1 {
            assert(parts.drop_first().take(1).len() == 1);
            assert(spec_join(parts.take(2), delimiter) == parts[0] + delimiter + parts[1]);
            assert(spec_join(parts.take(1), delimiter) == parts[0]);
        } else {
            assert(spec_join(parts.take(k + 1), delimiter) == parts[0] + delimiter + spec_join(
                parts.drop_first().take(k),
                delimiter,
            ));
            assert(spec_join(parts.take(k), delimiter) == parts[0] + delimiter + spec_join(
                parts.drop_first().take(k - 1),
                delimiter,
            ));
            assert(spec_join(parts.take(k + 1), delimiter) =~= spec_join(
                parts.take(k),
                delimiter,
            ) + delimiter + parts[k]);
        }
    }
}

/// Concatenates an error's description chain — the error's own description
/// first, then each cause's in order — into a single string, the given
/// delimiter between consecutive descriptions.
pub fn process_errors(descriptions: &Vec<String>, delimiter: &str) -> (r: String)
    ensures
        r@ == spec_join(descriptions@.map_values(|s: String| s@), delimiter@),
{
    let ghost parts = descriptions@.map_values(|s: String| s@);
    let n = descriptions.len();
    let mut result = String::new();
    if n == 0 {
        return result;
    }
    result.append(descriptions[0].as_str());
    proof {
        assert(parts[0] == descriptions@[0]@);
        lemma_join_take_step(parts, delimiter@, 0);
        assert(result@ =~= spec_join(parts.take(1), delimiter@));
    }
    let mut i: usize = 1;
    while i < n
        invariant
            1 <= i <= n,
            n == descriptions@.len(),
            parts == descriptions@.map_values(|s: String| s@),
            result@ == spec_join(parts.take(i as int), delimiter@),
        decreases n - i,
    {
        result.append(delimiter);
        result.append(descriptions[i].as_str());
        proof {
            assert(parts[i as int] == descriptions@[i as int]@);
            lemma_join_take_step(parts, delimiter@, i as int);
        }
        i = i + 1;
    }
    proof {
        assert(parts.take(n as int) =~= parts);
    }
    result
}

/// The message the facade reports when its lock was poisoned by a caller
/// that panicked while holding it.
pub fn lock_error<E>(_err: E) -> (r: String)
    ensures
        r@ == "subsystem lock poisoned"@,
{
    String::from_str("subsystem lock poisoned")
}

} // verus!
