use vstd::prelude::*;

verus! {

/// A UTF-8 continuation byte.
pub open spec fn is_cont(b: u8) -> bool {
    0x80 <= b <= 0xBF
}

/// Whether `s` is a well-formed UTF-8 byte sequence: every code point in its
/// shortest form, surrogates and values above the last code point excluded.
pub open spec fn is_utf8(s: Seq<u8>) -> bool
    decreases s.len(),
{
    if s.len() == 0 {
        true
    } else {
        let b0 = s[0];
        if b0 <= 0x7F {
            is_utf8(s.skip(1))
        } else if 0xC2 <= b0 && b0 <= 0xDF {
            if s.len() >= 2 && is_cont(s[1]) {
                is_utf8(s.skip(2))
            } else {
                false
            }
        } else if b0 == 0xE0 {
            if s.len() >= 3 && 0xA0 <= s[1] <= 0xBF && is_cont(s[2]) {
                is_utf8(s.skip(3))
            } else {
                false
            }
        } else if b0 == 0xED {
            if s.len() >= 3 && 0x80 <= s[1] <= 0x9F && is_cont(s[2]) {
                is_utf8(s.skip(3))
            } else {
                false
            }
        } else if 0xE1 <= b0 && b0 <= 0xEF {
            if s.len() >= 3 && is_cont(s[1]) && is_cont(s[2]) {
                is_utf8(s.skip(3))
            } else {
                false
            }
        } else if b0 == 0xF0 {
            if s.len() >= 4 && 0x90 <= s[1] <= 0xBF && is_cont(s[2]) && is_cont(s[3]) {
                is_utf8(s.skip(4))
            } else {
                false
            }
        } else if 0xF1 <= b0 && b0 <= 0xF3 {
            if s.len() >= 4 && is_cont(s[1]) && is_cont(s[2]) && is_cont(s[3]) {
                is_utf8(s.skip(4))
            } else {
                false
            }
        } else if b0 == 0xF4 {
            if s.len() >= 4 && 0x80 <= s[1] <= 0x8F && is_cont(s[2]) && is_cont(s[3]) {
                is_utf8(s.skip(4))
            } else {
                false
            }
        } else {
            false
        }
    }
}

fn cont(b: u8) -> (r: bool)
    ensures
        r == is_cont(b),
{
    0x80 <= b && b <= 0xBF
}

/// Decides whether `bytes` is well-formed UTF-8, one encoded code point at a
/// time.
pub fn check_utf8(bytes: &Vec<u8>) -> (r: bool)
    ensures
        r == is_utf8(bytes@),
{
    let n = bytes.len();
    let mut i: usize = 0;
    proof {
        assert(bytes@.skip(0) =~= bytes@);
    }
    while i < n
        invariant
            0 <= i <= n,
            n == bytes@.len(),
            is_utf8(bytes@) == is_utf8(bytes@.skip(i as int)),
        decreases n - i,
    {
        let ghost s = bytes@.skip(i as int);
        let b0 = bytes[i];
        let rem: usize = n - i;
        let mut ok: bool = false;
        let mut width: usize = 1;
        if b0 <= 0x7F {
            ok = true;
        } else if 0xC2 <= b0 && b0 <= 0xDF {
            ok = rem >= 2 && cont(bytes[i + 1]);
            width = 2;
        } else if b0 == 0xE0 {
            ok = rem >= 3 && 0xA0 <= bytes[i + 1] && bytes[i + 1] <= 0xBF && cont(bytes[i + 2]);
            width = 3;
        } else if b0 == 0xED {
            ok = rem >= 3 && 0x80 <= bytes[i + 1] && bytes[i + 1] <= 0x9F && cont(bytes[i + 2]);
            width = 3;
        } else if 0xE1 <= b0 && b0 <= 0xEF {
            ok = rem >= 3 && cont(bytes[i + 1]) && cont(bytes[i + 2]);
            width = 3;
        } else if b0 == 0xF0 {
            ok = rem >= 4 && 0x90 <= bytes[i + 1] && bytes[i + 1] <= 0xBF && cont(bytes[i + 2])
                && cont(bytes[i + 3]);
            width = 4;
        } else if 0xF1 <= b0 && b0 <= 0xF3 {
            ok = rem >= 4 && cont(bytes[i + 1]) && cont(bytes[i + 2]) && cont(bytes[i + 3]);
            width = 4;
        } else if b0 == 0xF4 {
            ok = rem >= 4 && 0x80 <= bytes[i + 1] && bytes[i + 1] <= 0x8F && cont(bytes[i + 2])
                && cont(bytes[i + 3]);
            width = 4;
        }
        proof {
            assert(s.len() == n - i);
            assert(s[0] == bytes@[i as int]);
            if s.len() >= 2 {
                assert(s[1] == bytes@[i as int + 1]);
            }
            if s.len() >= 3 {
                assert(s[2] == bytes@[i as int + 2]);
            }
            if s.len() >= 4 {
                assert(s[3] == bytes@[i as int + 3]);
            }
        }
        if !ok {
            proof {
                assert(!is_utf8(s));
            }
            return false;
        }
        proof {
            assert(is_utf8(s) == is_utf8(s.skip(width as int)));
            assert(s.skip(width as int) =~= bytes@.skip(i as int + width as int));
        }
        i = i + width;
    }
    proof {
        assert(is_utf8(bytes@.skip(n as int)));
    }
    true
}

} // verus!
