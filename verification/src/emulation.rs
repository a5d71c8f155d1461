//! Start-code emulation prevention: stripping the `0x03` byte of every
//! `00 00 03` run, and inserting one after every two zero bytes that a
//! low byte would otherwise turn into a false start code. Both scans,
//! their specifications, and the round-trip laws between them.
use vstd::prelude::*;

verus! {

/// The zero-run counter after reading `b`, capped at two: only the two
/// bytes right before the cursor matter to the escaping rules.
pub open spec fn ep_zrun_next(z: int, b: u8) -> int {
    if b == 0 {
        if z >= 1 {
            2
        } else {
            1
        }
    } else {
        0
    }
}

/// The escaped form of `s`, scanning with `z` zero bytes immediately
/// before the cursor: every byte `<= 3` after two zeros gets `0x03`
/// inserted in front of it.
pub open spec fn add_ep_go(s: Seq<u8>, z: int) -> Seq<u8>
    decreases s.len(),
{
    if s.len() == 0 {
        Seq::empty()
    } else {
        let b = s[0];
        if z >= 2 && b <= 3 {
            seq![3u8, b] + add_ep_go(s.skip(1), ep_zrun_next(0, b))
        } else {
            seq![b] + add_ep_go(s.skip(1), ep_zrun_next(z, b))
        }
    }
}

/// Inserts `0x03` after every two consecutive zero bytes followed by a
/// byte `<= 3`.
pub open spec fn add_ep(s: Seq<u8>) -> Seq<u8> {
    add_ep_go(s, 0)
}

/// The cleared form of `s`: every `0x03` standing right after two zero
/// bytes is dropped, and the scan restarts after it.
pub open spec fn clear_ep_go(s: Seq<u8>, z: int) -> Seq<u8>
    decreases s.len(),
{
    if s.len() == 0 {
        Seq::empty()
    } else {
        let b = s[0];
        if z >= 2 && b == 3 {
            clear_ep_go(s.skip(1), 0)
        } else {
            seq![b] + clear_ep_go(s.skip(1), ep_zrun_next(z, b))
        }
    }
}

/// Drops the `0x03` of every `00 00 03` run.
pub open spec fn clear_ep(s: Seq<u8>) -> Seq<u8> {
    clear_ep_go(s, 0)
}

/// A buffer is properly escaped when clearing and re-escaping it gives
/// it back: after two zeros only an escape byte `03` (itself followed
/// by a byte `<= 3`) or a byte above `3` may follow.
pub open spec fn escaped_from(s: Seq<u8>, z: int) -> bool
    decreases s.len(),
{
    if s.len() == 0 {
        true
    } else {
        let b = s[0];
        if z >= 2 {
            if b <= 2 {
                false
            } else if b == 3 {
                s.len() >= 2 && s[1] <= 3 && escaped_from(s.skip(2), ep_zrun_next(0, s[1]))
            } else {
                escaped_from(s.skip(1), 0)
            }
        } else {
            escaped_from(s.skip(1), ep_zrun_next(z, b))
        }
    }
}

/// No unescaped low byte after two zeros, and no stray escape byte.
pub open spec fn properly_escaped(s: Seq<u8>) -> bool {
    escaped_from(s, 0)
}

/// Clearing an escaped buffer undoes the escaping, for every input.
pub proof fn lemma_clear_add_go(s: Seq<u8>, z: int)
    requires
        0 <= z <= 2,
    ensures
        clear_ep_go(add_ep_go(s, z), z) == s,
    decreases s.len(),
{
    if s.len() == 0 {
        assert(clear_ep_go(add_ep_go(s, z), z) =~= s);
    } else {
        let b = s[0];
        if z == 2 && b <= 3 {
            let z2 = ep_zrun_next(0, b);
            lemma_clear_add_go(s.skip(1), z2);
            let t = add_ep_go(s.skip(1), z2);
            assert(add_ep_go(s, z) == seq![3u8, b] + t);
            assert((seq![3u8, b] + t)[0] == 3u8);
            assert((seq![3u8, b] + t).skip(1) =~= seq![b] + t);
            assert(clear_ep_go(seq![3u8, b] + t, 2) == clear_ep_go(seq![b] + t, 0));
            assert((seq![b] + t)[0] == b);
            assert((seq![b] + t).skip(1) =~= t);
            assert(clear_ep_go(seq![b] + t, 0) == seq![b] + clear_ep_go(t, z2));
            assert(seq![b] + s.skip(1) =~= s);
        } else {
            let z2 = ep_zrun_next(z, b);
            lemma_clear_add_go(s.skip(1), z2);
            let t = add_ep_go(s.skip(1), z2);
            assert(add_ep_go(s, z) == seq![b] + t);
            assert((seq![b] + t).skip(1) =~= t);
            assert(clear_ep_go(seq![b] + t, z) == seq![b] + clear_ep_go(t, z2));
            assert(seq![b] + s.skip(1) =~= s);
        }
    }
}

/// Round trip: `clear(add(x)) == x`, for every byte sequence.
pub proof fn lemma_clear_add_roundtrip(s: Seq<u8>)
    ensures
        clear_ep(add_ep(s)) == s,
{
    lemma_clear_add_go(s, 0);
}

/// Escaping the cleared form of a properly escaped buffer gives the
/// buffer back.
pub proof fn lemma_add_clear_escaped_go(s: Seq<u8>, z: int)
    requires
        0 <= z <= 2,
        escaped_from(s, z),
    ensures
        add_ep_go(clear_ep_go(s, z), z) == s,
    decreases s.len(),
{
    if s.len() == 0 {
        assert(add_ep_go(clear_ep_go(s, z), z) =~= s);
    } else {
        let b = s[0];
        if z == 2 {
            if b == 3 {
                let c = s[1];
                let z2 = ep_zrun_next(0, c);
                assert(escaped_from(s.skip(2), z2));
                lemma_add_clear_escaped_go(s.skip(2), z2);
                let t = clear_ep_go(s.skip(2), z2);
                assert(s.skip(1)[0] == c);
                assert(s.skip(1).skip(1) =~= s.skip(2));
                assert(clear_ep_go(s, 2) == clear_ep_go(s.skip(1), 0));
                assert(clear_ep_go(s.skip(1), 0) == seq![c] + t);
                assert((seq![c] + t).skip(1) =~= t);
                assert(add_ep_go(seq![c] + t, 2) == seq![3u8, c] + add_ep_go(t, z2));
                assert(seq![3u8, c] + s.skip(2) =~= s);
            } else {
                let z2 = ep_zrun_next(z, b);
                assert(z2 == 0);
                assert(escaped_from(s.skip(1), 0));
                lemma_add_clear_escaped_go(s.skip(1), 0);
                let t = clear_ep_go(s.skip(1), 0);
                assert(clear_ep_go(s, z) == seq![b] + t);
                assert((seq![b] + t).skip(1) =~= t);
                assert(add_ep_go(seq![b] + t, z) == seq![b] + add_ep_go(t, 0));
                assert(seq![b] + s.skip(1) =~= s);
            }
        } else {
            let z2 = ep_zrun_next(z, b);
            assert(escaped_from(s.skip(1), z2));
            lemma_add_clear_escaped_go(s.skip(1), z2);
            let t = clear_ep_go(s.skip(1), z2);
            assert(clear_ep_go(s, z) == seq![b] + t);
            assert((seq![b] + t).skip(1) =~= t);
            assert(add_ep_go(seq![b] + t, z) == seq![b] + add_ep_go(t, z2));
            assert(seq![b] + s.skip(1) =~= s);
        }
    }
}

/// Round trip the other way: `add(clear(r)) == r` for properly escaped `r`.
pub proof fn lemma_add_clear_escaped(s: Seq<u8>)
    requires
        properly_escaped(s),
    ensures
        add_ep(clear_ep(s)) == s,
{
    lemma_add_clear_escaped_go(s, 0);
}

/// What the escaper emits is properly escaped: clearing it and
/// re-escaping gives it back.
pub proof fn lemma_add_ep_escaped_go(s: Seq<u8>, z: int)
    requires
        0 <= z <= 2,
    ensures
        escaped_from(add_ep_go(s, z), z),
    decreases s.len(),
{
    if s.len() > 0 {
        let b = s[0];
        if z >= 2 && b <= 3 {
            let z2 = ep_zrun_next(0, b);
            lemma_add_ep_escaped_go(s.skip(1), z2);
            let t = add_ep_go(s.skip(1), z2);
            assert((seq![3u8, b] + t)[0] == 3u8);
            assert((seq![3u8, b] + t)[1] == b);
            assert((seq![3u8, b] + t).skip(2) =~= t);
        } else {
            let z2 = ep_zrun_next(z, b);
            lemma_add_ep_escaped_go(s.skip(1), z2);
            let t = add_ep_go(s.skip(1), z2);
            assert((seq![b] + t)[0] == b);
            assert((seq![b] + t).skip(1) =~= t);
        }
    }
}

/// The escaper's output is always properly escaped.
pub proof fn lemma_add_ep_escaped(s: Seq<u8>)
    ensures
        properly_escaped(add_ep(s)),
{
    lemma_add_ep_escaped_go(s, 0);
}

/// A properly escaped buffer holds no false start code: no byte at or
/// below two follows two zero bytes anywhere in it.
pub proof fn lemma_escaped_no_false_start_go(s: Seq<u8>, z: int)
    requires
        0 <= z <= 2,
        escaped_from(s, z),
    ensures
        forall|i: int|
            0 <= i && i + 2 < s.len() ==> !(#[trigger] s[i] == 0 && s[i + 1] == 0 && s[i + 2]
                <= 2),
        z >= 1 && s.len() >= 2 ==> !(s[0] == 0 && s[1] <= 2),
        z >= 2 && s.len() >= 1 ==> !(s[0] <= 2),
    decreases s.len(),
{
    if s.len() == 0 {
    } else {
        let b = s[0];
        if z >= 2 {
            if b == 3 {
                let c = s[1];
                let z2 = ep_zrun_next(0, c);
                lemma_escaped_no_false_start_go(s.skip(2), z2);
                assert forall|i: int|
                    0 <= i && i + 2 < s.len() implies !(#[trigger] s[i] == 0 && s[i + 1] == 0
                    && s[i + 2] <= 2) by {
                    if i == 0 {
                        assert(s[0] == 3);
                    } else if i == 1 {
                        if c == 0 {
                            assert(z2 == 1);
                            assert(s.skip(2)[0] == s[2] && s.skip(2)[1] == s[3]);
                        }
                    } else {
                        assert(s.skip(2)[i - 2] == s[i] && s.skip(2)[i - 1] == s[i + 1] && s.skip(
                            2,
                        )[i] == s[i + 2]);
                    }
                }
            } else {
                lemma_escaped_no_false_start_go(s.skip(1), 0);
                assert forall|i: int|
                    0 <= i && i + 2 < s.len() implies !(#[trigger] s[i] == 0 && s[i + 1] == 0
                    && s[i + 2] <= 2) by {
                    if i > 0 {
                        assert(s.skip(1)[i - 1] == s[i] && s.skip(1)[i] == s[i + 1] && s.skip(
                            1,
                        )[i + 1] == s[i + 2]);
                    }
                }
            }
        } else {
            let z2 = ep_zrun_next(z, b);
            lemma_escaped_no_false_start_go(s.skip(1), z2);
            assert forall|i: int|
                0 <= i && i + 2 < s.len() implies !(#[trigger] s[i] == 0 && s[i + 1] == 0 && s[i
                + 2] <= 2) by {
                if i == 0 {
                    if s[0] == 0 && s[1] == 0 && s[2] <= 2 {
                        if z2 >= 2 {
                            assert(s.skip(1)[0] == s[1]);
                        } else {
                            assert(z2 == 1);
                            assert(s.skip(1)[0] == s[1] && s.skip(1)[1] == s[2]);
                        }
                        assert(false);
                    }
                } else {
                    assert(s.skip(1)[i - 1] == s[i] && s.skip(1)[i] == s[i + 1] && s.skip(1)[i + 1]
                        == s[i + 2]);
                }
            }
            if z >= 1 && s.len() >= 2 && s[0] == 0 && s[1] <= 2 {
                assert(z2 == 2);
                assert(s.skip(1)[0] == s[1]);
                assert(false);
            }
        }
    }
}

/// No false start code stands in a properly escaped buffer.
pub proof fn lemma_escaped_no_false_start(s: Seq<u8>)
    requires
        properly_escaped(s),
    ensures
        forall|i: int|
            0 <= i && i + 2 < s.len() ==> !(#[trigger] s[i] == 0 && s[i + 1] == 0 && s[i + 2]
                <= 2),
{
    lemma_escaped_no_false_start_go(s, 0);
}

/// Clearing never lengthens a buffer.
pub proof fn lemma_clear_ep_go_len(s: Seq<u8>, z: int)
    ensures
        clear_ep_go(s, z).len() <= s.len(),
    decreases s.len(),
{
    if s.len() > 0 {
        let b = s[0];
        if z >= 2 && b == 3 {
            lemma_clear_ep_go_len(s.skip(1), 0);
        } else {
            lemma_clear_ep_go_len(s.skip(1), ep_zrun_next(z, b));
        }
    }
}

/// Strips every `0x03` occurring as the third byte of a `00 00 03` run.
pub fn clear_start_code_emulation_prevention_3_byte(data: &[u8]) -> (r: Vec<u8>)
    ensures
        r@ == clear_ep(data@),
{
    let mut out: Vec<u8> = Vec::new();
    let mut zrun: u8 = 0;
    let mut i: usize = 0;
    proof {
        assert(data@.skip(0) =~= data@);
    }
    while i < data.len()
        invariant
            i <= data@.len(),
            0 <= zrun <= 2,
            clear_ep(data@) == out@ + clear_ep_go(data@.skip(i as int), zrun as int),
        decreases data@.len() - i,
    {
        let b = data[i];
        proof {
            assert(data@.skip(i as int)[0] == b);
            assert(data@.skip(i as int).skip(1) =~= data@.skip(i + 1));
        }
        if zrun == 2 && b == 3 {
            zrun = 0;
        } else {
            out.push(b);
            if b == 0 {
                zrun = if zrun >= 1 {
                    2
                } else {
                    1
                };
            } else {
                zrun = 0;
            }
        }
        i += 1;
    }
    proof {
        assert(data@.skip(data@.len() as int) =~= Seq::empty());
        assert(out@ =~= clear_ep(data@));
    }
    out
}

/// Inserts a `0x03` between two zero bytes and any following byte
/// `<= 3`, preventing false start codes.
pub fn add_start_code_emulation_prevention_3_byte(data: &mut Vec<u8>)
    ensures
        final(data)@ == add_ep(old(data)@),
{
    let mut out: Vec<u8> = Vec::new();
    let mut zrun: u8 = 0;
    let mut i: usize = 0;
    proof {
        assert(data@.skip(0) =~= data@);
    }
    while i < data.len()
        invariant
            i <= data@.len(),
            0 <= zrun <= 2,
            data@ == old(data)@,
            add_ep(data@) == out@ + add_ep_go(data@.skip(i as int), zrun as int),
        decreases data@.len() - i,
    {
        let b = data[i];
        proof {
            assert(data@.skip(i as int)[0] == b);
            assert(data@.skip(i as int).skip(1) =~= data@.skip(i + 1));
        }
        if zrun == 2 && b <= 3 {
            out.push(3);
            out.push(b);
            zrun = if b == 0 {
                1
            } else {
                0
            };
        } else {
            out.push(b);
            if b == 0 {
                zrun = if zrun >= 1 {
                    2
                } else {
                    1
                };
            } else {
                zrun = 0;
            }
        }
        i += 1;
    }
    proof {
        assert(data@.skip(data@.len() as int) =~= Seq::empty());
        assert(out@ =~= add_ep(data@));
    }
    *data = out;
}

} // verus!
