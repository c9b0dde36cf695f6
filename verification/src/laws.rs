//! Properties that span several operations of the CPU and the assembler.
use vstd::prelude::*;
use crate::stack::{dec8, spec_push, spec_pop};
use crate::machine::{MachineView, Event, spec_execute, spec_exec_operand, spec_exec_shuffle};
use crate::assembler::{spec_assemble, AsmState, AsmFault, Word, asm_from, classify, LETTER_X, LETTER_P, DOLLAR, first_missing, resolve, patched, calls_from, weight, jms_expansion, rts_expansion, word3};
use crate::hex::spec_get_immediate;
use crate::text::{HASH, NEWLINE, is_space, strip_from, strip_comments, split_from, split_whitespace, close_token};

verus! {

/// Popping right after a push gives back the value pushed and the stack
/// pointer from before the push; the cell used is left cleared.
pub proof fn law_pop_undoes_push(memory: Seq<u8>, sp: u8, value: u8)
    requires
        memory.len() == 256,
    ensures
        ({
            let (m1, sp1) = spec_push(memory, sp, value);
            let (m2, sp2, popped) = spec_pop(m1, sp1);
            &&& popped == value
            &&& sp2 == sp
            &&& m2 == memory.update(dec8(sp) as int, 0)
        }),
{
    let (m1, sp1) = spec_push(memory, sp, value);
    let (m2, sp2, popped) = spec_pop(m1, sp1);
    assert(m2 =~= memory.update(dec8(sp) as int, 0));
}

/// Pushing back the value just popped leaves the CPU as it was.
pub proof fn law_push_undoes_pop(m: MachineView)
    requires
        m.wf(),
    ensures
        m.pop().0.push(m.pop().1) == m,
{
    let (m1, v) = m.pop();
    assert(m1.push(v).memory =~= m.memory);
}

/// Swapping the two top entries twice leaves the CPU as it was.
pub proof fn law_swap_twice_is_identity(m: MachineView)
    requires
        m.wf(),
    ensures
        spec_exec_shuffle(spec_exec_shuffle(m, 0x1D), 0x1D) == m,
{
    let m1 = spec_exec_shuffle(m, 0x1D);
    let m2 = spec_exec_shuffle(m1, 0x1D);
    assert(m2.memory =~= m.memory);
}

/// Storing the top entry at stack offset `n` (instruction `sto n`) and then
/// loading from stack offset `n` (`ldo n`) puts that entry back on top, at
/// the same stack pointer.
pub proof fn law_store_then_load(m: MachineView, prog: Seq<u8>, n: u8)
    requires
        m.wf(),
        n < 64,
    ensures
        ({
            let (m1, e1) = spec_exec_operand(m, prog, (0x40 + n) as u8);
            let (m2, e2) = spec_exec_operand(m1, prog, (0x80 + n) as u8);
            &&& e1 == Event::Executed
            &&& e2 == Event::Executed
            &&& m2.sp == m.sp
            &&& m2.top() == m.top()
        }),
{
}

/// The code the assembler gives an `x` immediate of value `v`: one byte
/// below 0x10, else a push-next-byte instruction and the byte.
pub open spec fn immediate_code(v: u8) -> Seq<u8> {
    if v < 0x10 { seq![(0xF0u8 | v) as u8] } else { seq![0x01u8, v] }
}

/// An `x` immediate token assembles to `immediate_code` of its value, and
/// that code, run on the CPU, pushes the value: what the assembler writes
/// is what the emulator reads back.
pub proof fn law_immediate_round_trip(t: Seq<u8>, offset: nat, st: AsmState, m: MachineView, prog: Seq<u8>)
    requires
        t.len() > 0,
        t[0] == LETTER_X,
        classify(t) == Word::Other,
        spec_get_immediate(t) is Some,
        m.wf(),
        prog.len() < 65536,
        m.ip + immediate_code(spec_get_immediate(t).unwrap()).len() <= prog.len(),
        prog.subrange(m.ip as int, m.ip + immediate_code(spec_get_immediate(t).unwrap()).len())
            == immediate_code(spec_get_immediate(t).unwrap()),
    ensures
        ({
            let v = spec_get_immediate(t).unwrap();
            let code = immediate_code(v);
            let (m1, e) = spec_execute(m, prog);
            &&& asm_from(seq![t], 0, offset, st) == Ok::<AsmState, crate::assembler::AsmFault>(st.emit(code))
            &&& e == Event::Executed
            &&& m1 == m.with_ip((m.ip + code.len() - 1) as u16).push(v)
        }),
{
    let v = spec_get_immediate(t).unwrap();
    lemma_immediate_assembles(t, offset, st);
    lemma_immediate_executes(v, m, prog);
}

/// An `x` immediate token assembles to `immediate_code` of its value.
proof fn lemma_immediate_assembles(t: Seq<u8>, offset: nat, st: AsmState)
    requires
        t.len() > 0,
        t[0] == LETTER_X,
        classify(t) == Word::Other,
        spec_get_immediate(t) is Some,
    ensures
        asm_from(seq![t], 0, offset, st)
            == Ok::<AsmState, crate::assembler::AsmFault>(st.emit(immediate_code(spec_get_immediate(t).unwrap()))),
{
    let code = immediate_code(spec_get_immediate(t).unwrap());
    let ts = seq![t];
    assert(ts[0] == t);
    assert(asm_from(ts, 1, offset, st.emit(code)) == Ok::<AsmState, crate::assembler::AsmFault>(st.emit(code)));
}

/// `immediate_code(v)` under the instruction pointer pushes `v`.
proof fn lemma_immediate_executes(v: u8, m: MachineView, prog: Seq<u8>)
    requires
        m.wf(),
        prog.len() < 65536,
        m.ip + immediate_code(v).len() <= prog.len(),
        prog.subrange(m.ip as int, m.ip + immediate_code(v).len()) == immediate_code(v),
    ensures
        spec_execute(m, prog) == (m.with_ip((m.ip + immediate_code(v).len() - 1) as u16).push(v), Event::Executed),
{
    reveal(spec_execute);
    let code = immediate_code(v);
    assert(prog[m.ip as int] == code[0]);
    if v < 0x10 {
        let b = (0xF0u8 | v) as u8;
        assert(b / 64 == 3 && (b / 16) % 4 == 3 && b % 16 == v) by (bit_vector)
            requires
                b == 0xF0u8 | v,
                v < 0x10,
        ;
        assert(m.with_ip(m.ip) == m);
    } else {
        assert(prog[m.ip + 1] == code[1]);
    }
}

/// Text without a `#` passes through comment stripping unchanged.
proof fn lemma_strip_plain(s: Seq<u8>, i: int, k: int)
    requires
        0 <= i <= k <= s.len(),
        forall|j: int| i <= j < k ==> s[j] != HASH,
    ensures
        strip_from(s, i, false) == s.subrange(i, k) + strip_from(s, k, false),
    decreases k - i,
{
    if i < k {
        lemma_strip_plain(s, i + 1, k);
        assert(seq![s[i]] + (s.subrange(i + 1, k) + strip_from(s, k, false)) =~= s.subrange(i, k) + strip_from(s, k, false));
    } else {
        assert(s.subrange(i, k) + strip_from(s, k, false) =~= strip_from(s, k, false));
    }
}

/// A comment running to the end of the text leaves nothing.
proof fn lemma_strip_comment_to_end(s: Seq<u8>, i: int)
    requires
        0 <= i <= s.len(),
        forall|k: int| i <= k < s.len() ==> s[k] != NEWLINE,
    ensures
        strip_from(s, i, true) == Seq::<u8>::empty(),
    decreases s.len() - i,
{
    if i < s.len() {
        lemma_strip_comment_to_end(s, i + 1);
    }
}

/// What comment stripping leaves holds no `#`.
proof fn lemma_strip_has_no_hash(s: Seq<u8>, i: int, f: bool)
    requires
        0 <= i <= s.len(),
    ensures
        forall|k: int| 0 <= k < strip_from(s, i, f).len() ==> strip_from(s, i, f)[k] != HASH,
    decreases s.len() - i,
{
    if i < s.len() {
        lemma_strip_has_no_hash(s, i + 1, true);
        lemma_strip_has_no_hash(s, i + 1, false);
        if !f && s[i] != HASH {
            let rest = strip_from(s, i + 1, false);
            assert forall|k: int| 0 <= k < strip_from(s, i, f).len() implies strip_from(s, i, f)[k] != HASH by {
                if k > 0 {
                    assert(strip_from(s, i, f)[k] == rest[k - 1]);
                }
            }
        } else if f {
            assert(strip_from(s, i, f) == strip_from(s, i + 1, s[i] != NEWLINE));
        } else {
            assert(strip_from(s, i, f) == strip_from(s, i + 1, true));
        }
    }
}

/// Inside a comment everything up to and including the newline goes.
proof fn lemma_strip_comment_body(s: Seq<u8>, i: int, j: int)
    requires
        0 <= i <= j < s.len(),
        s[j] == NEWLINE,
        forall|k: int| i <= k < j ==> s[k] != NEWLINE,
    ensures
        strip_from(s, i, true) == strip_from(s, j + 1, false),
    decreases j - i,
{
    if i < j {
        lemma_strip_comment_body(s, i + 1, j);
    }
}

/// Stripping from inside the second part of a concatenation ignores the
/// first part.
proof fn lemma_strip_suffix(p: Seq<u8>, q: Seq<u8>, i: int, f: bool)
    requires
        0 <= i <= q.len(),
    ensures
        strip_from(p + q, p.len() + i, f) == strip_from(q, i, f),
    decreases q.len() - i,
{
    if i < q.len() {
        assert((p + q)[p.len() + i] == q[i]);
        lemma_strip_suffix(p, q, i + 1, false);
        lemma_strip_suffix(p, q, i + 1, true);
    }
}

/// A comment (a `#`, text without a newline, then a newline) is cut out
/// whole, newline included, and the text around it is kept as it is; a
/// comment that runs to the end of the text, with no newline after it, is
/// cut out too.
pub proof fn law_comment_is_cut(a: Seq<u8>, c: Seq<u8>, b: Seq<u8>)
    requires
        forall|i: int| 0 <= i < a.len() ==> a[i] != HASH,
        forall|i: int| 0 <= i < c.len() ==> c[i] != NEWLINE,
    ensures
        strip_comments(a + seq![HASH] + c + seq![NEWLINE] + b) == a + strip_comments(b),
        strip_comments(a + seq![HASH] + c) == a,
{
    let s = a + seq![HASH] + c + seq![NEWLINE] + b;
    let head = a + seq![HASH] + c + seq![NEWLINE];
    assert(s =~= head + b);
    lemma_strip_plain(s, 0, a.len() as int);
    assert(s.subrange(0, a.len() as int) =~= a);
    assert(s[a.len() as int] == HASH);
    let j: int = a.len() as int + 1 + c.len() as int;
    assert(s[j] == NEWLINE);
    assert forall|k: int| a.len() + 1 <= k < j implies s[k] != NEWLINE by {
        assert(s[k] == c[k - a.len() - 1]);
    }
    lemma_strip_comment_body(s, a.len() + 1 as int, j);
    lemma_strip_suffix(head, b, 0, false);
    assert(head.len() == j + 1);

    let t = a + seq![HASH] + c;
    lemma_strip_plain(t, 0, a.len() as int);
    assert(t.subrange(0, a.len() as int) =~= a);
    assert(t[a.len() as int] == HASH);
    assert forall|k: int| a.len() + 1 <= k < t.len() implies t[k] != NEWLINE by {
        assert(t[k] == c[k - a.len() - 1]);
    }
    lemma_strip_comment_to_end(t, a.len() + 1 as int);
    assert(a + Seq::<u8>::empty() =~= a);
}

/// Comments do not matter: the text left once every comment is cut out
/// holds no `#`, cutting comments from it again changes nothing, and it
/// assembles exactly as the text with its comments.
pub proof fn law_comments_do_not_matter(s: Seq<u8>)
    ensures
        forall|k: int| 0 <= k < strip_comments(s).len() ==> strip_comments(s)[k] != HASH,
        strip_comments(strip_comments(s)) == strip_comments(s),
        spec_assemble(strip_comments(s)) == spec_assemble(s),
{
    let t = strip_comments(s);
    lemma_strip_has_no_hash(s, 0, false);
    lemma_strip_plain(t, 0, t.len() as int);
    assert(t.subrange(0, t.len() as int) + strip_from(t, t.len() as int, false) =~= t);
}

/// Every token read from `s` from index `i` on, with `cur` read so far, is
/// non-empty and free of whitespace, provided `cur` is free of whitespace.
proof fn lemma_split_tokens(s: Seq<u8>, i: int, cur: Seq<u8>)
    requires
        0 <= i <= s.len(),
        forall|k: int| 0 <= k < cur.len() ==> !is_space(cur[k]),
    ensures
        forall|n: int| 0 <= n < split_from(s, i, cur).len() ==> (#[trigger] split_from(s, i, cur)[n]).len() > 0,
        forall|n: int, k: int| 0 <= n < split_from(s, i, cur).len() && 0 <= k < split_from(s, i, cur)[n].len()
            ==> !is_space(#[trigger] split_from(s, i, cur)[n][k]),
    decreases s.len() - i,
{
    if i < s.len() {
        if is_space(s[i]) {
            lemma_split_tokens(s, i + 1, Seq::empty());
            let rest = split_from(s, i + 1, Seq::empty());
            let all = close_token(cur) + rest;
            assert(split_from(s, i, cur) == all);
            if cur.len() > 0 {
                assert(close_token(cur) =~= seq![cur]);
            }
            assert forall|n: int| 0 <= n < all.len() implies (#[trigger] all[n]).len() > 0 by {
                if n >= close_token(cur).len() {
                    assert(all[n] == rest[n - close_token(cur).len()]);
                }
            }
            assert forall|n: int, k: int| 0 <= n < all.len() && 0 <= k < all[n].len() implies !is_space(#[trigger] all[n][k]) by {
                if n >= close_token(cur).len() {
                    assert(all[n] == rest[n - close_token(cur).len()]);
                }
            }
        } else {
            let c2 = cur.push(s[i]);
            assert forall|k: int| 0 <= k < c2.len() implies !is_space(c2[k]) by {
                if k < cur.len() {
                    assert(c2[k] == cur[k]);
                }
            }
            lemma_split_tokens(s, i + 1, c2);
            assert(split_from(s, i, cur) == split_from(s, i + 1, c2));
        }
    } else {
        if cur.len() > 0 {
            assert(split_from(s, i, cur) =~= seq![cur]);
        } else {
            assert(split_from(s, i, cur) =~= Seq::<Seq<u8>>::empty());
        }
    }
}

/// Tokens are never empty and never hold whitespace.
pub proof fn law_tokens_are_words(s: Seq<u8>)
    ensures
        forall|n: int| 0 <= n < split_whitespace(s).len() ==> (#[trigger] split_whitespace(s)[n]).len() > 0,
        forall|n: int, k: int| 0 <= n < split_whitespace(s).len() && 0 <= k < split_whitespace(s)[n].len()
            ==> !is_space(#[trigger] split_whitespace(s)[n][k]),
{
    lemma_split_tokens(s, 0, Seq::empty());
}

/// `first_missing` from `k` on finds nothing exactly when every reference at
/// an address from `k` on names a defined label; what it finds is such a
/// label, referenced and undefined.
proof fn lemma_first_missing(st: AsmState, k: int)
    requires
        0 <= k <= 256,
    ensures
        first_missing(st, k) is None <==> forall|a: u8| k <= a && #[trigger] st.mentions.contains_key(a)
            ==> st.labels.contains_key(st.mentions[a]),
        first_missing(st, k) matches Some(l) ==> exists|a: u8| #[trigger] st.mentions.contains_key(a)
            && st.mentions[a] == l && !st.labels.contains_key(l),
    decreases 256 - k,
{
    if k < 256 {
        lemma_first_missing(st, k + 1);
        let a = k as u8;
        assert(a as int == k);
        if st.mentions.contains_key(a) && !st.labels.contains_key(st.mentions[a]) {
        } else {
            if forall|b: u8| k + 1 <= b && #[trigger] st.mentions.contains_key(b) ==> st.labels.contains_key(st.mentions[b]) {
                assert forall|c: u8| k <= c && #[trigger] st.mentions.contains_key(c) implies st.labels.contains_key(st.mentions[c]) by {
                    if c as int == k {
                        assert(c == a);
                    }
                }
            }
        }
    }
}

/// Label resolution: it succeeds exactly when every label referenced is
/// defined; it then replaces the byte at each reference's address by the
/// value of the label named; and when it fails, the label reported is one
/// that is referenced and not defined.
pub proof fn law_label_resolution(st: AsmState)
    ensures
        resolve(st) is Ok <==> forall|a: u8| #[trigger] st.mentions.contains_key(a)
            ==> st.labels.contains_key(st.mentions[a]),
        resolve(st) matches Ok(code) ==> code.len() == st.out.len() && forall|a: u8| #[trigger] st.mentions.contains_key(a)
            && (a as int) < code.len() ==> code[a as int] == st.labels[st.mentions[a]],
        resolve(st) matches Err(e) ==> e matches AsmFault::LabelNotFound(l) && exists|a: u8| #[trigger] st.mentions.contains_key(a)
            && st.mentions[a] == l && !st.labels.contains_key(l),
{
    lemma_first_missing(st, 0);
    if let Ok(code) = resolve(st) {
        assert(code == patched(st));
    }
}

/// An assembling result with `p` put in front of its code.
pub open spec fn with_prefix(p: Seq<u8>, r: Result<AsmState, AsmFault>) -> Result<AsmState, AsmFault> {
    match r {
        Ok(s) => Ok(AsmState { out: p + s.out, ..s }),
        Err(e) => Err(e),
    }
}

/// Whether no token from index `i` on is `jms`.
pub open spec fn jms_free(ts: Seq<Seq<u8>>, i: int) -> bool {
    forall|k: int| i <= k < ts.len() ==> classify(#[trigger] ts[k]) != Word::Jms
}

/// `rts` gives `sti` whatever the offset.
proof fn lemma_rts_any_offset(o: nat, s: AsmState)
    ensures
        asm_from(rts_expansion(), 0, o, s) == Ok::<AsmState, AsmFault>(s.emit(seq![0x16u8])),
{
    let e = rts_expansion();
    assert(e[0] == word3(0x73, 0x74, 0x69));
    assert(classify(e[0]) == Word::Simple(0x16));
    assert(asm_from(e, 1, o, s.emit(seq![0x16u8])) == Ok::<AsmState, AsmFault>(s.emit(seq![0x16u8])));
}

/// For tokens without `jms`, assembling after code `p` is assembling with
/// the offset moved on by the length of `p`.
pub proof fn law_offset_shift(ts: Seq<Seq<u8>>, i: int, off: nat, p: Seq<u8>, st: AsmState)
    requires
        0 <= i <= ts.len(),
        jms_free(ts, i),
    ensures
        with_prefix(p, asm_from(ts, i, off + p.len(), st)) == asm_from(ts, i, off, AsmState { out: p + st.out, ..st }),
    decreases ts.len() - i,
{
    let st2 = AsmState { out: p + st.out, ..st };
    if i < ts.len() {
        let t = ts[i];
        assert(classify(ts[i]) != Word::Jms);
        assert(off + p.len() + st.out.len() == off + st2.out.len());
        match classify(t) {
            Word::Rts => {
                lemma_rts_any_offset(st.out.len(), st.fresh());
                lemma_rts_any_offset(st2.out.len(), st2.fresh());
                let n1 = AsmState { out: st.out + st.fresh().emit(seq![0x16u8]).out, ..st.fresh().emit(seq![0x16u8]) };
                let n2 = AsmState { out: st2.out + st2.fresh().emit(seq![0x16u8]).out, ..st2.fresh().emit(seq![0x16u8]) };
                assert(n1 == st.emit(seq![0x16u8])) by {
                    assert(n1.out =~= st.emit(seq![0x16u8]).out);
                }
                assert(n2 == st2.emit(seq![0x16u8])) by {
                    assert(n2.out =~= st2.emit(seq![0x16u8]).out);
                }
                law_offset_shift(ts, i + 1, off, p, st.emit(seq![0x16u8]));
                assert(p + st.emit(seq![0x16u8]).out =~= st2.emit(seq![0x16u8]).out);
            },
            Word::Simple(op) => {
                law_offset_shift(ts, i + 1, off, p, st.emit(seq![op]));
                assert(p + st.emit(seq![op]).out =~= st2.emit(seq![op]).out);
            },
            Word::Operand(base) => {
                if i + 1 < ts.len() {
                    if let Some(v) = spec_get_immediate(ts[i + 1]) {
                        if v < 0x20 {
                            law_offset_shift(ts, i + 2, off, p, st.emit(seq![base | v]));
                            assert(p + st.emit(seq![base | v]).out =~= st2.emit(seq![base | v]).out);
                        }
                    }
                }
            },
            Word::Lbl => {
                if i + 1 < ts.len() {
                    let here = ((off + p.len() + st.out.len()) % 256) as u8;
                    law_offset_shift(ts, i + 2, off, p, AsmState { labels: st.labels.insert(ts[i + 1], here), ..st });
                }
            },
            Word::Other => {
                if t.len() > 0 && t[0] == crate::assembler::DOLLAR {
                    let key = ((off + p.len() + st.out.len() + 1) % 256) as u8;
                    let next = AsmState { mentions: st.mentions.insert(key, t), ..st.emit(seq![0x01u8, 0xCCu8]) };
                    law_offset_shift(ts, i + 1, off, p, next);
                    assert(p + next.out =~= st2.emit(seq![0x01u8, 0xCCu8]).out);
                } else if t.len() > 0 && t[0] == LETTER_X {
                    if let Some(v) = spec_get_immediate(t) {
                        let bytes = if v < 0x10 { seq![0xF0u8 | v] } else { seq![0x01u8, v] };
                        law_offset_shift(ts, i + 1, off, p, st.emit(bytes));
                        assert(p + st.emit(bytes).out =~= st2.emit(bytes).out);
                    }
                } else if t.len() > 0 && t[0] == crate::assembler::LETTER_P {
                    if let Some(v) = spec_get_immediate(t) {
                        law_offset_shift(ts, i + 1, off, p, st.emit(seq![v]));
                        assert(p + st.emit(seq![v]).out =~= st2.emit(seq![v]).out);
                    }
                }
            },
            _ => {},
        }
    } else {
        assert(st2 == AsmState { out: p + st.out, ..st });
    }
}

/// The token sequence `jms t`.
pub open spec fn jms_call(t: Seq<u8>) -> Seq<Seq<u8>> {
    seq![word3(0x6A, 0x6D, 0x73) /* jms */, t]
}

/// The macro `jms t` at the start of the code (offset 0) assembles exactly
/// as its expansion `ldi x05 add t sti` written out, provided `t` is not
/// `jms` itself; likewise `rts` assembles exactly as `sti`.
pub proof fn law_macros_are_their_expansions(t: Seq<u8>, st: AsmState)
    requires
        classify(t) != Word::Jms,
    ensures
        asm_from(jms_call(t), 0, 0, st) == asm_from(
            seq![word3(0x6C, 0x64, 0x69) /* ldi */, word3(0x78, 0x30, 0x35) /* x05 */, word3(0x61, 0x64, 0x64) /* add */, t, word3(0x73, 0x74, 0x69) /* sti */],
            0,
            0,
            st,
        ),
        asm_from(seq![word3(0x72, 0x74, 0x73) /* rts */], 0, 0, st) == asm_from(
            seq![word3(0x73, 0x74, 0x69) /* sti */],
            0,
            0,
            st,
        ),
{
    let exp = jms_expansion(t);
    assert(exp =~= seq![word3(0x6C, 0x64, 0x69), word3(0x78, 0x30, 0x35), word3(0x61, 0x64, 0x64), t, word3(0x73, 0x74, 0x69)]);
    assert(rts_expansion() =~= seq![word3(0x73, 0x74, 0x69)]);
    assert(exp[0] == word3(0x6C, 0x64, 0x69));
    assert(exp[1] == word3(0x78, 0x30, 0x35));
    assert(exp[2] == word3(0x61, 0x64, 0x64));
    assert(exp[3] == t);
    assert(exp[4] == word3(0x73, 0x74, 0x69));
    assert(jms_free(exp, 0));
    let rexp = rts_expansion();
    assert(rexp[0] == word3(0x73, 0x74, 0x69));
    assert(jms_free(rexp, 0));
    let fresh = st.fresh();
    law_offset_shift(exp, 0, 0, st.out, fresh);
    assert(AsmState { out: st.out + fresh.out, ..fresh } == st) by {
        assert(st.out + fresh.out =~= st.out);
    }
    let call = jms_call(t);
    assert(call[0] == word3(0x6A, 0x6D, 0x73));
    assert(call[1] == t);
    match asm_from(exp, 0, st.out.len(), fresh) {
        Ok(r) => {
            assert(asm_from(call, 2, 0, AsmState { out: st.out + r.out, ..r }) == Ok::<AsmState, AsmFault>(AsmState { out: st.out + r.out, ..r }));
        },
        Err(e) => {},
    }
    let rts = seq![word3(0x72, 0x74, 0x73)];
    assert(rts[0] == word3(0x72, 0x74, 0x73));
    law_offset_shift(rts_expansion(), 0, 0, st.out, fresh);
    match asm_from(rts_expansion(), 0, st.out.len(), fresh) {
        Ok(r) => {
            assert(asm_from(rts, 1, 0, AsmState { out: st.out + r.out, ..r }) == Ok::<AsmState, AsmFault>(AsmState { out: st.out + r.out, ..r }));
        },
        Err(e) => {},
    }
}

/// One step of `asm_from` at index `i` (inside the tokens): the index of the
/// next token and the state there, or the error.
pub open spec fn asm_step(ts: Seq<Seq<u8>>, i: int, offset: nat, st: AsmState) -> Result<(int, AsmState), AsmFault> {
    let t = ts[i];
    let here = ((offset + st.out.len()) % 256) as u8;
    match classify(t) {
        Word::Simple(op) => Ok((i + 1, st.emit(seq![op]))),
        Word::Jms => if i + 1 >= ts.len() {
            Err(AsmFault::MissingOperand(t))
        } else {
            match asm_from(jms_expansion(ts[i + 1]), 0, st.out.len(), st.fresh()) {
                Err(e) => Err(e),
                Ok(r) => Ok((i + 2, AsmState { out: st.out + r.out, ..r })),
            }
        },
        Word::Rts => match asm_from(rts_expansion(), 0, st.out.len(), st.fresh()) {
            Err(e) => Err(e),
            Ok(r) => Ok((i + 1, AsmState { out: st.out + r.out, ..r })),
        },
        Word::Operand(base) => if i + 1 >= ts.len() {
            Err(AsmFault::MissingOperand(t))
        } else {
            match spec_get_immediate(ts[i + 1]) {
                None => Err(AsmFault::UnparsableImmediate(ts[i + 1])),
                Some(v) => if v < 0x20 {
                    Ok((i + 2, st.emit(seq![base | v])))
                } else {
                    Err(AsmFault::ImmediateOverflow(ts[i + 1]))
                },
            }
        },
        Word::Lbl => if i + 1 >= ts.len() {
            Err(AsmFault::MissingOperand(t))
        } else {
            Ok((i + 2, AsmState { labels: st.labels.insert(ts[i + 1], here), ..st }))
        },
        Word::Other => if t.len() > 0 && t[0] == crate::assembler::DOLLAR {
            let key = ((offset + st.out.len() + 1) % 256) as u8;
            Ok((i + 1, AsmState { mentions: st.mentions.insert(key, t), ..st.emit(seq![0x01u8, 0xCCu8]) }))
        } else if t.len() > 0 && t[0] == LETTER_X {
            match spec_get_immediate(t) {
                None => Err(AsmFault::UnparsableImmediate(t)),
                Some(v) => if v < 0x10 {
                    Ok((i + 1, st.emit(seq![0xF0u8 | v])))
                } else {
                    Ok((i + 1, st.emit(seq![0x01u8, v])))
                },
            }
        } else if t.len() > 0 && t[0] == crate::assembler::LETTER_P {
            match spec_get_immediate(t) {
                None => Err(AsmFault::UnparsableImmediate(t)),
                Some(v) => Ok((i + 1, st.emit(seq![v]))),
            }
        } else {
            Err(AsmFault::InvalidInstruction(t))
        },
    }
}

/// `asm_from` is `asm_step` followed by `asm_from` from the next index,
/// which lies further on, with no more expanding tokens from there.
proof fn lemma_unfold(ts: Seq<Seq<u8>>, i: int, offset: nat, st: AsmState)
    requires
        0 <= i < ts.len(),
    ensures
        asm_from(ts, i, offset, st) == match asm_step(ts, i, offset, st) {
            Err(e) => Err(e),
            Ok((n, s2)) => asm_from(ts, n, offset, s2),
        },
        asm_step(ts, i, offset, st) matches Ok((n, s2)) ==> i < n <= ts.len() && calls_from(ts, n) <= calls_from(ts, i),
{
    assert(calls_from(ts, i) == weight(ts[i]) + calls_from(ts, i + 1));
    if i + 1 < ts.len() {
        assert(calls_from(ts, i + 1) == weight(ts[i + 1]) + calls_from(ts, i + 2));
    }
}

/// Assembling from inside the second part of a concatenation ignores the
/// first part.
proof fn lemma_asm_suffix(p: Seq<Seq<u8>>, q: Seq<Seq<u8>>, j: int, offset: nat, st: AsmState)
    requires
        0 <= j <= q.len(),
    ensures
        asm_from(p + q, p.len() + j, offset, st) == asm_from(q, j, offset, st),
    decreases calls_from(q, j), q.len() - j,
{
    let pq = p + q;
    if j < q.len() {
        let i = p.len() + j;
        assert(pq[i] == q[j]);
        if j + 1 < q.len() {
            assert(pq[i + 1] == q[j + 1]);
        }
        lemma_unfold(pq, i, offset, st);
        lemma_unfold(q, j, offset, st);
        match asm_step(q, j, offset, st) {
            Err(e) => {
                assert(asm_step(pq, i, offset, st) == Err::<(int, AsmState), AsmFault>(e));
            },
            Ok((n, s2)) => {
                assert(asm_step(pq, i, offset, st) == Ok::<(int, AsmState), AsmFault>((p.len() + n, s2)));
                lemma_asm_suffix(p, q, n, offset, s2);
            },
        }
    }
}

/// Where the first tokens assemble, their concatenation with more tokens
/// assembles as the first tokens followed by the rest (from `i` on).
proof fn lemma_asm_concat(ts1: Seq<Seq<u8>>, ts2: Seq<Seq<u8>>, i: int, offset: nat, st: AsmState)
    requires
        0 <= i <= ts1.len(),
        asm_from(ts1, i, offset, st) is Ok,
    ensures
        asm_from(ts1 + ts2, i, offset, st) == asm_from(ts2, 0, offset, asm_from(ts1, i, offset, st)->Ok_0),
    decreases calls_from(ts1, i), ts1.len() - i,
{
    let ts = ts1 + ts2;
    if i == ts1.len() {
        lemma_asm_suffix(ts1, ts2, 0, offset, st);
    } else {
        assert(ts[i] == ts1[i]);
        if i + 1 < ts1.len() {
            assert(ts[i + 1] == ts1[i + 1]);
        }
        lemma_unfold(ts, i, offset, st);
        lemma_unfold(ts1, i, offset, st);
        match asm_step(ts1, i, offset, st) {
            Err(e) => {},
            Ok((n, s2)) => {
                assert(asm_step(ts, i, offset, st) == Ok::<(int, AsmState), AsmFault>((n, s2)));
                lemma_asm_concat(ts1, ts2, n, offset, s2);
            },
        }
    }
}

/// Assembling two token lists one after the other is assembling their
/// concatenation, wherever the first list assembles without error: the
/// second list goes on from the state the first one left. Where the second
/// list holds no `jms`, its code is the code it gives on its own, taken to
/// start where the first list's code ends.
pub proof fn law_concatenation(ts1: Seq<Seq<u8>>, ts2: Seq<Seq<u8>>, offset: nat, st: AsmState)
    requires
        asm_from(ts1, 0, offset, st) is Ok,
    ensures
        asm_from(ts1 + ts2, 0, offset, st) == asm_from(ts2, 0, offset, asm_from(ts1, 0, offset, st)->Ok_0),
        jms_free(ts2, 0) ==> ({
            let r1 = asm_from(ts1, 0, offset, st)->Ok_0;
            asm_from(ts1 + ts2, 0, offset, st) == with_prefix(r1.out, asm_from(ts2, 0, offset + r1.out.len(), r1.fresh()))
        }),
{
    lemma_asm_concat(ts1, ts2, 0, offset, st);
    let r1 = asm_from(ts1, 0, offset, st)->Ok_0;
    if jms_free(ts2, 0) {
        law_offset_shift(ts2, 0, offset, r1.out, r1.fresh());
        assert(AsmState { out: r1.out + r1.fresh().out, ..r1.fresh() } == r1) by {
            assert(r1.out + r1.fresh().out =~= r1.out);
        }
    }
}

/// An operand instruction (`sto`, `ldo`, `skp`, `shl`, `shr`) takes the
/// next token as its operand: an operand below 0x20 is or-ed into the
/// opcode, a larger one is refused as too large, a token holding no
/// immediate is refused as such, and a missing operand is refused too.
pub proof fn law_operand_instructions(w: Seq<u8>, t: Seq<u8>, offset: nat, st: AsmState)
    requires
        classify(w) is Operand,
    ensures
        asm_from(seq![w], 0, offset, st) == Err::<AsmState, AsmFault>(AsmFault::MissingOperand(w)),
        ({
            let base = classify(w)->Operand_0;
            asm_from(seq![w, t], 0, offset, st) == match spec_get_immediate(t) {
                None => Err::<AsmState, AsmFault>(AsmFault::UnparsableImmediate(t)),
                Some(v) => if v < 0x20 {
                    Ok::<AsmState, AsmFault>(st.emit(seq![base | v]))
                } else {
                    Err::<AsmState, AsmFault>(AsmFault::ImmediateOverflow(t))
                },
            }
        }),
{
    let ts = seq![w, t];
    assert(ts[0] == w && ts[1] == t);
    assert(seq![w][0] == w);
    match spec_get_immediate(t) {
        None => {},
        Some(v) => {
            let base = classify(w)->Operand_0;
            assert(asm_from(ts, 2, offset, st.emit(seq![base | v])) == Ok::<AsmState, AsmFault>(
                st.emit(seq![base | v]),
            ));
        },
    }
}

/// A raw byte `p..` assembles to its value, a label reference `$..` to a
/// push-next-byte instruction and a placeholder byte 0xCC whose position
/// (from the start of the code, as a byte) is recorded with the token, and
/// any other token that is no instruction and no `x..` immediate is refused
/// as an invalid instruction.
pub proof fn law_raw_bytes_and_references(t: Seq<u8>, offset: nat, st: AsmState)
    requires
        t.len() > 0,
        classify(t) == Word::Other,
    ensures
        t[0] == LETTER_P ==> asm_from(seq![t], 0, offset, st) == match spec_get_immediate(t) {
            None => Err::<AsmState, AsmFault>(AsmFault::UnparsableImmediate(t)),
            Some(v) => Ok::<AsmState, AsmFault>(st.emit(seq![v])),
        },
        t[0] == DOLLAR ==> asm_from(seq![t], 0, offset, st) == Ok::<AsmState, AsmFault>(
            AsmState {
                out: st.out + seq![0x01u8, 0xCCu8],
                labels: st.labels,
                mentions: st.mentions.insert(((offset + st.out.len() + 1) % 256) as u8, t),
            },
        ),
        t[0] != DOLLAR && t[0] != LETTER_X && t[0] != LETTER_P ==> asm_from(seq![t], 0, offset, st) == Err::<
            AsmState,
            AsmFault,
        >(AsmFault::InvalidInstruction(t)),
{
    let ts = seq![t];
    assert(ts[0] == t);
    if t[0] == LETTER_P {
        match spec_get_immediate(t) {
            None => {},
            Some(v) => {
                assert(asm_from(ts, 1, offset, st.emit(seq![v])) == Ok::<AsmState, AsmFault>(st.emit(seq![v])));
            },
        }
    } else if t[0] == DOLLAR {
        let key = ((offset + st.out.len() + 1) % 256) as u8;
        let st2 = AsmState { mentions: st.mentions.insert(key, t), ..st.emit(seq![0x01u8, 0xCCu8]) };
        assert(asm_from(ts, 1, offset, st2) == Ok::<AsmState, AsmFault>(st2));
    }
}

/// `lbl name` emits nothing and defines `name` as the position of the code
/// that follows (from the start of the code, as a byte), replacing an
/// earlier definition; without a name it is refused.
pub proof fn law_label_definition(w: Seq<u8>, name: Seq<u8>, offset: nat, st: AsmState)
    requires
        classify(w) == Word::Lbl,
    ensures
        asm_from(seq![w], 0, offset, st) == Err::<AsmState, AsmFault>(AsmFault::MissingOperand(w)),
        asm_from(seq![w, name], 0, offset, st) == Ok::<AsmState, AsmFault>(
            AsmState {
                out: st.out,
                labels: st.labels.insert(name, ((offset + st.out.len()) % 256) as u8),
                mentions: st.mentions,
            },
        ),
{
    let ts = seq![w, name];
    assert(ts[0] == w && ts[1] == name);
    assert(seq![w][0] == w);
    let st2 = AsmState { labels: st.labels.insert(name, ((offset + st.out.len()) % 256) as u8), ..st };
    assert(asm_from(ts, 2, offset, st2) == Ok::<AsmState, AsmFault>(st2));
}

} // verus!
