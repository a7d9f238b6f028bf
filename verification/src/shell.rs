//! Escaping of strings that may hold bytes a POSIX shell treats specially.

use vstd::prelude::*;

verus! {

/// Bytes that never need quoting in a shell word.
pub open spec fn is_whitelisted(c: u8) -> bool {
    ||| 'a' as u8 <= c <= 'z' as u8
    ||| 'A' as u8 <= c <= 'Z' as u8
    ||| '0' as u8 <= c <= '9' as u8
    ||| c == '-' as u8
    ||| c == '_' as u8
    ||| c == '=' as u8
    ||| c == '/' as u8
    ||| c == ',' as u8
    ||| c == '.' as u8
    ||| c == '+' as u8
}

/// How one byte is written inside a single-quoted shell word: a quote or an
/// exclamation mark closes the quote, emits the byte escaped, and reopens
/// it.
pub open spec fn spec_escape_byte(c: u8) -> Seq<u8> {
    if c == '\'' as u8 || c == '!' as u8 {
        seq!['\'' as u8, '\\' as u8, c, '\'' as u8]
    } else {
        seq![c]
    }
}

/// The body of the quoted form of `s`.
pub open spec fn spec_escape_inner(s: Seq<u8>) -> Seq<u8>
    decreases s.len(),
{
    if s.len() == 0 {
        Seq::empty()
    } else {
        spec_escape_inner(s.take(s.len() - 1)) + spec_escape_byte(s[s.len() - 1])
    }
}

/// The escaped form of `s`: unchanged when nonempty and wholly whitelisted,
/// otherwise wrapped in single quotes with the two special bytes escaped.
pub open spec fn spec_escape(s: Seq<u8>) -> Seq<u8> {
    if s.len() > 0 && (forall|i: int| 0 <= i < s.len() ==> is_whitelisted(#[trigger] s[i])) {
        s
    } else {
        seq!['\'' as u8] + spec_escape_inner(s) + seq!['\'' as u8]
    }
}

/// Whether the byte forces the whole string to be quoted.
pub fn non_whitelisted(c: u8) -> (r: bool)
    ensures
        r == !is_whitelisted(c),
{
    !(('a' as u8 <= c && c <= 'z' as u8) || ('A' as u8 <= c && c <= 'Z' as u8) || ('0' as u8 <= c
        && c <= '9' as u8) || c == '-' as u8 || c == '_' as u8 || c == '=' as u8 || c == '/' as u8
        || c == ',' as u8 || c == '.' as u8 || c == '+' as u8)
}

/// Escape bytes that may have special meaning in a POSIX shell.
pub fn escape(s: &[u8]) -> (r: Vec<u8>)
    ensures
        r@ == spec_escape(s@),
{
    let mut all_clean = s.len() > 0;
    let mut i: usize = 0;
    while i < s.len() && all_clean
        invariant
            i <= s@.len(),
            all_clean ==> forall|j: int| 0 <= j < i ==> is_whitelisted(#[trigger] s@[j]),
            s@.len() > 0 ==> (all_clean || !(forall|j: int|
                0 <= j < s@.len() ==> is_whitelisted(#[trigger] s@[j]))),
        decreases s.len() - i,
    {
        if non_whitelisted(s[i]) {
            all_clean = false;
        }
        i += 1;
    }
    if all_clean && s.len() > 0 {
        let r = crate::bytes::copy_range(s, 0, s.len());
        proof {
            assert(r@ =~= s@);
        }
        return r;
    }
    let mut out: Vec<u8> = Vec::new();
    out.push('\'' as u8);
    let mut k: usize = 0;
    while k < s.len()
        invariant
            k <= s@.len(),
            out@ == seq!['\'' as u8] + spec_escape_inner(s@.take(k as int)),
        decreases s.len() - k,
    {
        let c = s[k];
        if c == '\'' as u8 || c == '!' as u8 {
            out.push('\'' as u8);
            out.push('\\' as u8);
            out.push(c);
            out.push('\'' as u8);
        } else {
            out.push(c);
        }
        proof {
            assert(s@.take(k + 1 as int).take(k as int) =~= s@.take(k as int));
            assert(s@.take(k + 1 as int)[k as int] == s@[k as int]);
            assert(out@ =~= seq!['\'' as u8] + spec_escape_inner(s@.take(k + 1 as int)));
        }
        k += 1;
    }
    out.push('\'' as u8);
    proof {
        assert(s@.take(s@.len() as int) =~= s@);
        assert(out@ =~= seq!['\'' as u8] + spec_escape_inner(s@) + seq!['\'' as u8]);
    }
    out
}

} // verus!
