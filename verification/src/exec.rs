//! The initial stack of a new program.
use vstd::prelude::*;
use crate::elf::ElfInfo;
use crate::view::{le_bytes, le_encode};

verus! {

// Auxiliary vector keys.
pub const AT_NULL: usize = 0;
pub const AT_PHDR: usize = 3;
pub const AT_PHENT: usize = 4;
pub const AT_PHNUM: usize = 5;
pub const AT_ENTRY: usize = 9;
pub const AT_SECURE: usize = 23;

/// A stack being filled from its top downwards: the current offset and the
/// writes made so far, each an offset and the bytes written there.
pub struct StackModel {
    pub off: int,
    pub writes: Seq<(int, Seq<u8>)>,
}

/// Pushes bytes below the current offset.
pub open spec fn push_bytes(s: StackModel, b: Seq<u8>) -> StackModel {
    StackModel { off: s.off - b.len(), writes: s.writes.push((s.off - b.len(), b)) }
}

/// Pushes a machine word.
pub open spec fn push_word(s: StackModel, v: nat) -> StackModel {
    push_bytes(s, le_encode(v, 8))
}

/// Pushes words, the first one first.
pub open spec fn push_words(s: StackModel, vals: Seq<nat>) -> StackModel
    decreases vals.len(),
{
    if vals.len() == 0 {
        s
    } else {
        push_words(push_word(s, vals[0]), vals.drop_first())
    }
}

/// Pushes NUL-terminated strings, the first one first, and gives the
/// offset at which each string starts.
pub open spec fn push_strings(s: StackModel, strs: Seq<Seq<u8>>) -> (StackModel, Seq<int>)
    decreases strs.len(),
{
    if strs.len() == 0 {
        (s, Seq::empty())
    } else {
        let s1 = push_bytes(push_bytes(s, seq![0u8]), strs[0]);
        let rest = push_strings(s1, strs.drop_first());
        (rest.0, seq![s1.off] + rest.1)
    }
}

/// Bytes that pushing the strings takes.
pub open spec fn strings_size(strs: Seq<Seq<u8>>) -> int
    decreases strs.len(),
{
    if strs.len() == 0 {
        0
    } else {
        strs[0].len() + 1 + strings_size(strs.drop_first())
    }
}

pub open spec fn as_nats(s: Seq<int>) -> Seq<nat> {
    s.map_values(|x: int| x as nat)
}

/// The auxiliary vector as it is pushed: each value before its key.
pub open spec fn aux_words(info: ElfInfo) -> Seq<nat> {
    seq![
        0nat, AT_NULL as nat,
        0nat, AT_SECURE as nat,
        info.at_phdr as nat, AT_PHDR as nat,
        info.at_phnum as nat, AT_PHNUM as nat,
        info.at_phent as nat, AT_PHENT as nat,
        info.at_entry as nat, AT_ENTRY as nat
    ]
}

/// Whether an extra word is pushed so that the final offset ends up
/// 16-byte aligned.
pub open spec fn needs_padding(argc: int, envc: int) -> bool {
    (1 + argc + envc) % 2 == 1
}

/// The stack of a new program with `stack_size` bytes: the environment
/// strings, then the argument strings, then (after aligning down to 16
/// bytes and an optional padding word) the auxiliary vector, a zero word
/// and the environment pointers, a zero word and the argument pointers,
/// and finally the argument count. The pointers are the offsets of the
/// strings in the stack.
pub open spec fn initial_stack(
    stack_size: int,
    argv: Seq<Seq<u8>>,
    envp: Seq<Seq<u8>>,
    info: ElfInfo,
) -> StackModel {
    let s0 = StackModel { off: stack_size, writes: Seq::empty() };
    let (s1, env_offs) = push_strings(s0, envp);
    let (s2, arg_offs) = push_strings(s1, argv);
    let s3 = StackModel { off: s2.off - s2.off % 16, writes: s2.writes };
    let s4 = if needs_padding(argv.len() as int, envp.len() as int) {
        push_word(s3, 0)
    } else {
        s3
    };
    let s5 = push_words(s4, aux_words(info));
    let s6 = push_words(s5, seq![0nat] + as_nats(env_offs.reverse()));
    let s7 = push_words(s6, seq![0nat] + as_nats(arg_offs.reverse()));
    push_word(s7, argv.len() as nat)
}

/// Bytes taken below the aligned offset.
pub open spec fn words_size(argc: int, envc: int) -> int {
    8 * ((if needs_padding(argc, envc) { 1int } else { 0int }) + 12 + (envc + 1) + (argc + 1) + 1)
}

/// The stack fits: the strings fit, and the words fit below the aligned offset.
pub open spec fn stack_fits(stack_size: int, argv: Seq<Seq<u8>>, envp: Seq<Seq<u8>>) -> bool {
    let after = stack_size - strings_size(envp) - strings_size(argv);
    &&& after >= 0
    &&& after - after % 16 >= words_size(argv.len() as int, envp.len() as int)
}

proof fn lemma_push_strings(s: StackModel, strs: Seq<Seq<u8>>)
    ensures
        push_strings(s, strs).0.off == s.off - strings_size(strs),
        push_strings(s, strs).1.len() == strs.len(),
        strings_size(strs) >= 0,
        forall|i: int| 0 <= i < strs.len() ==> push_strings(s, strs).1[i] >= push_strings(s, strs).0.off,
    decreases strs.len(),
{
    if strs.len() > 0 {
        let s1 = push_bytes(push_bytes(s, seq![0u8]), strs[0]);
        lemma_push_strings(s1, strs.drop_first());
    }
}

proof fn lemma_push_words(s: StackModel, vals: Seq<nat>)
    ensures
        push_words(s, vals).off == s.off - 8 * vals.len(),
    decreases vals.len(),
{
    if vals.len() > 0 {
        crate::view::lemma_le_encode_len(vals[0], 8);
        lemma_push_words(push_word(s, vals[0]), vals.drop_first());
    }
}

/// A write into the stack object.
pub struct StackWrite {
    pub offset: usize,
    pub bytes: Vec<u8>,
}

pub open spec fn write_view(w: StackWrite) -> (int, Seq<u8>) {
    (w.offset as int, w.bytes@)
}

pub open spec fn writes_view(ws: Seq<StackWrite>) -> Seq<(int, Seq<u8>)> {
    ws.map_values(|w: StackWrite| write_view(w))
}

fn push(writes: &mut Vec<StackWrite>, off: usize, bytes: Vec<u8>) -> (r: usize)
    requires
        bytes@.len() <= off,
    ensures
        r == off - bytes@.len(),
        writes_view(final(writes)@) == writes_view(old(writes)@).push((r as int, bytes@)),
{
    let r = off - bytes.len();
    let ghost b = bytes@;
    writes.push(StackWrite { offset: r, bytes });
    assert(writes_view(writes@) =~= writes_view(old(writes)@).push((r as int, b)));
    r
}

fn copy_bytes(s: &Vec<u8>) -> (r: Vec<u8>)
    ensures
        r@ == s@,
{
    vstd::slice::slice_to_vec(s.as_slice())
}

/// Pushes strings onto the stack model held in `writes` at `off`.
fn push_all_strings(writes: &mut Vec<StackWrite>, off: usize, strs: &Vec<Vec<u8>>) -> (r: (usize, Vec<usize>))
    requires
        off >= strings_size(strs@.map_values(|v: Vec<u8>| v@)),
    ensures
        ({
            let m = push_strings(
                StackModel { off: off as int, writes: writes_view(old(writes)@) },
                strs@.map_values(|v: Vec<u8>| v@),
            );
            &&& r.0 == m.0.off
            &&& writes_view(final(writes)@) == m.0.writes
            &&& r.1@.map_values(|x: usize| x as int) == m.1
        }),
{
    let ghost ss = strs@.map_values(|v: Vec<u8>| v@);
    let ghost start = StackModel { off: off as int, writes: writes_view(writes@) };
    let mut cur = off;
    let mut offsets: Vec<usize> = Vec::new();
    let mut i: usize = 0;
    proof {
        assert(ss.skip(0) =~= ss);
        lemma_push_strings(start, ss);
    }
    while i < strs.len()
        invariant
            i <= strs@.len(),
            ss == strs@.map_values(|v: Vec<u8>| v@),
            cur >= strings_size(ss.skip(i as int)),
            push_strings(start, ss).0 == push_strings(
                StackModel { off: cur as int, writes: writes_view(writes@) },
                ss.skip(i as int),
            ).0,
            push_strings(start, ss).1 == offsets@.map_values(|x: usize| x as int) + push_strings(
                StackModel { off: cur as int, writes: writes_view(writes@) },
                ss.skip(i as int),
            ).1,
        decreases strs.len() - i,
    {
        let ghost cur_m = StackModel { off: cur as int, writes: writes_view(writes@) };
        let ghost rest = ss.skip(i as int);
        proof {
            assert(rest[0] == strs@[i as int]@);
            assert(rest.drop_first() =~= ss.skip(i + 1));
            lemma_push_strings(push_bytes(push_bytes(cur_m, seq![0u8]), rest[0]), rest.drop_first());
        }
        let mut nul: Vec<u8> = Vec::new();
        nul.push(0u8);
        assert(nul@ =~= seq![0u8]);
        cur = push(writes, cur, nul);
        cur = push(writes, cur, copy_bytes(&strs[i]));
        let ghost before = offsets@.map_values(|x: usize| x as int);
        offsets.push(cur);
        proof {
            assert(offsets@.map_values(|x: usize| x as int) =~= before + seq![cur as int]);
            assert(before + push_strings(cur_m, rest).1 =~= offsets@.map_values(|x: usize| x as int)
                + push_strings(
                StackModel { off: cur as int, writes: writes_view(writes@) },
                ss.skip(i + 1),
            ).1);
        }
        i = i + 1;
    }
    proof {
        assert(ss.skip(strs@.len() as int) =~= Seq::<Seq<u8>>::empty());
        assert(offsets@.map_values(|x: usize| x as int) + Seq::<int>::empty() =~= offsets@.map_values(
            |x: usize| x as int,
        ));
    }
    (cur, offsets)
}


proof fn lemma_push_words_snoc(s: StackModel, vals: Seq<nat>, v: nat)
    ensures
        push_words(s, vals.push(v)) == push_word(push_words(s, vals), v),
    decreases vals.len(),
{
    if vals.len() == 0 {
        assert(vals.push(v).drop_first() =~= Seq::<nat>::empty());
        assert(vals.push(v)[0] == v);
        assert(push_words(push_word(s, v), Seq::<nat>::empty()) == push_word(s, v));
        assert(push_words(s, vals) == s);
    } else {
        assert(vals.push(v)[0] == vals[0]);
        assert(vals.push(v).drop_first() =~= vals.drop_first().push(v));
        lemma_push_words_snoc(push_word(s, vals[0]), vals.drop_first(), v);
    }
}

pub open spec fn usizes_as_nats(v: Seq<usize>) -> Seq<nat> {
    v.map_values(|x: usize| x as nat)
}

/// Pushes the words of `vals`, the first one first.
fn push_word_list(writes: &mut Vec<StackWrite>, off: usize, vals: &Vec<usize>) -> (r: usize)
    requires
        off >= 8 * vals@.len(),
    ensures
        ({
            let m = push_words(
                StackModel { off: off as int, writes: writes_view(old(writes)@) },
                usizes_as_nats(vals@),
            );
            &&& r == m.off
            &&& writes_view(final(writes)@) == m.writes
        }),
        r == off - 8 * vals@.len(),
{
    let ghost start = StackModel { off: off as int, writes: writes_view(writes@) };
    let ghost all = usizes_as_nats(vals@);
    let mut cur = off;
    let mut i: usize = 0;
    proof {
        assert(all.take(0) =~= Seq::<nat>::empty());
    }
    while i < vals.len()
        invariant
            i <= vals@.len(),
            all == usizes_as_nats(vals@),
            off >= 8 * vals@.len(),
            cur == off - 8 * i,
            push_words(start, all.take(i as int)) == (StackModel { off: cur as int, writes: writes_view(writes@) }),
        decreases vals.len() - i,
    {
        let v = vals[i];
        proof {
            assert(all.take(i + 1) =~= all.take(i as int).push(v as nat));
            lemma_push_words_snoc(start, all.take(i as int), v as nat);
            crate::view::lemma_width_limit(8);
            crate::view::lemma_le_encode_len(v as nat, 8);
        }
        let bytes = le_bytes(v as u64, 8);
        cur = push(writes, cur, bytes);
        i = i + 1;
    }
    proof {
        assert(all.take(vals@.len() as int) =~= all);
    }
    cur
}

/// A zero word followed by the offsets from the last to the first.
fn zero_then_reversed(offs: &Vec<usize>) -> (r: Vec<usize>)
    ensures
        r@.len() == offs@.len() + 1,
        usizes_as_nats(r@) == seq![0nat] + as_nats(offs@.map_values(|x: usize| x as int).reverse()),
{
    let mut r: Vec<usize> = Vec::new();
    r.push(0);
    let mut j: usize = offs.len();
    while j > 0
        invariant
            j <= offs@.len(),
            r@.len() == 1 + offs@.len() - j,
            r@[0] == 0,
            forall|k: int| 1 <= k <= offs@.len() - j ==> #[trigger] r@[k] == offs@[offs@.len() - k],
        decreases j,
    {
        j = j - 1;
        r.push(offs[j]);
    }
    let ghost o = offs@.map_values(|x: usize| x as int);
    proof {
        assert forall|k: int| 0 <= k < usizes_as_nats(r@).len() implies usizes_as_nats(r@)[k] == (seq![0nat] + as_nats(o.reverse()))[k] by {
            if k > 0 {
                assert(r@[k] == offs@[offs@.len() - k]);
                assert(o.reverse()[k - 1] == o[o.len() - 1 - (k - 1)]);
            }
        }
        assert(usizes_as_nats(r@) =~= seq![0nat] + as_nats(o.reverse()));
    }
    r
}

/// Fills the initial stack of a program: `stack_size` bytes, the arguments
/// and environment strings, and the auxiliary values of the loaded image.
/// Gives the writes to make into the stack object, in order, and the offset
/// of the final stack pointer, which is 16-byte aligned.
#[verifier::spinoff_prover]
pub fn build_stack(stack_size: usize, argv: &Vec<Vec<u8>>, envp: &Vec<Vec<u8>>, info: &ElfInfo) -> (r: (Vec<StackWrite>, usize))
    requires
        stack_fits(
            stack_size as int,
            argv@.map_values(|v: Vec<u8>| v@),
            envp@.map_values(|v: Vec<u8>| v@),
        ),
    ensures
        ({
            let m = initial_stack(
                stack_size as int,
                argv@.map_values(|v: Vec<u8>| v@),
                envp@.map_values(|v: Vec<u8>| v@),
                *info,
            );
            &&& writes_view(r.0@) == m.writes
            &&& r.1 == m.off
            &&& r.1 % 16 == 0
        }),
{
    let ghost av = argv@.map_values(|v: Vec<u8>| v@);
    let ghost ev = envp@.map_values(|v: Vec<u8>| v@);
    let ghost s0 = StackModel { off: stack_size as int, writes: Seq::empty() };
    let mut writes: Vec<StackWrite> = Vec::new();
    assert(writes_view(writes@) =~= Seq::<(int, Seq<u8>)>::empty());
    proof {
        lemma_push_strings(s0, ev);
        lemma_push_strings(push_strings(s0, ev).0, av);
    }
    let (off1, env_offs) = push_all_strings(&mut writes, stack_size, envp);
    let (off2, arg_offs) = push_all_strings(&mut writes, off1, argv);
    let mut off = off2 - off2 % 16;
    let argc = argv.len();
    let envc = envp.len();
    let ghost s3 = StackModel { off: off as int, writes: writes_view(writes@) };
    let ghost pad = needs_padding(argc as int, envc as int);
    proof {
        assert(push_strings(s0, ev).1 == env_offs@.map_values(|x: usize| x as int));
        assert(push_strings(push_strings(s0, ev).0, av).1 == arg_offs@.map_values(|x: usize| x as int));
    }
    if (1 + argc % 2 + envc % 2) % 2 == 1 {
        assert(pad);
        proof {
            crate::view::lemma_width_limit(8);
            crate::view::lemma_le_encode_len(0, 8);
        }
        let zero = le_bytes(0, 8);
        off = push(&mut writes, off, zero);
    } else {
        assert(!pad);
    }
    let ghost s4 = StackModel { off: off as int, writes: writes_view(writes@) };
    assert(s4 == (if pad { push_word(s3, 0) } else { s3 }));
    let mut aux: Vec<usize> = Vec::new();
    aux.push(0);
    aux.push(AT_NULL);
    aux.push(0);
    aux.push(AT_SECURE);
    aux.push(info.at_phdr);
    aux.push(AT_PHDR);
    aux.push(info.at_phnum);
    aux.push(AT_PHNUM);
    aux.push(info.at_phent);
    aux.push(AT_PHENT);
    aux.push(info.at_entry);
    aux.push(AT_ENTRY);
    assert(usizes_as_nats(aux@) =~= aux_words(*info));
    off = push_word_list(&mut writes, off, &aux);
    let env_words = zero_then_reversed(&env_offs);
    proof {
        lemma_push_words(s4, aux_words(*info));
    }
    off = push_word_list(&mut writes, off, &env_words);
    let arg_words = zero_then_reversed(&arg_offs);
    off = push_word_list(&mut writes, off, &arg_words);
    proof {
        crate::view::lemma_width_limit(8);
        crate::view::lemma_le_encode_len(argc as nat, 8);
    }
    let count = le_bytes(argc as u64, 8);
    off = push(&mut writes, off, count);
    (writes, off)
}

} // verus!

verus! {

/// Where a relocatable executable is loaded (kept away from address 0).
pub const EXEC_BASE: usize = 0x10000;
/// The size of a new program's stack: 2 MiB.
pub const STACK_SIZE: usize = 0x200000;

/// Where a new program's pieces go in an address space whose user half
/// has addresses below `1 << (highest_bit - 1)`: the interpreter at a
/// quarter of the address range, the stack below the last page of the
/// user half.
#[derive(Clone, Copy, Debug, PartialEq, Eq, Structural)]
pub struct ExecLayout {
    pub exec_base: usize,
    pub interp_base: usize,
    /// The lowest address of the stack.
    pub stack_base: usize,
    pub stack_size: usize,
}

/// The user half of the address space ends above the stack.
pub open spec fn layout_ok(highest_bit: usize, page_size: usize) -> bool {
    &&& 2 <= highest_bit <= 64
    &&& highest_bit <= usize::BITS
    &&& page_size + STACK_SIZE <= vstd::arithmetic::power2::pow2((highest_bit - 1) as nat)
}

/// Lays out a new program for an address space of `highest_bit` bits.
pub fn exec_layout(highest_bit: usize, page_size: usize) -> (r: ExecLayout)
    requires
        layout_ok(highest_bit, page_size),
    ensures
        r.exec_base == EXEC_BASE,
        r.interp_base == vstd::arithmetic::power2::pow2((highest_bit - 2) as nat),
        r.stack_base == vstd::arithmetic::power2::pow2((highest_bit - 1) as nat) - page_size - STACK_SIZE,
        r.stack_size == STACK_SIZE,
{
    proof {
        vstd::arithmetic::power2::lemma_pow2_strictly_increases((highest_bit - 2) as nat, (highest_bit - 1) as nat);
    }
    let half = shl_one(highest_bit - 1);
    let quarter = shl_one(highest_bit - 2);
    let highest = half - page_size;
    ExecLayout { exec_base: EXEC_BASE, interp_base: quarter, stack_base: highest - STACK_SIZE, stack_size: STACK_SIZE }
}

/// `1 << bits`.
fn shl_one(bits: usize) -> (r: usize)
    requires
        bits < usize::BITS,
    ensures
        r == vstd::arithmetic::power2::pow2(bits as nat),
{
    let mut r: usize = 1;
    let mut i: usize = 0;
    proof { vstd::arithmetic::power2::lemma2_to64(); }
    while i < bits
        invariant
            i <= bits,
            bits < usize::BITS,
            r == vstd::arithmetic::power2::pow2(i as nat),
        decreases bits - i,
    {
        proof {
            vstd::arithmetic::power2::lemma_pow2_unfold((i + 1) as nat);
            vstd::arithmetic::power2::lemma_pow2_strictly_increases((i + 1) as nat, usize::BITS as nat);
            assert(vstd::arithmetic::power2::pow2(usize::BITS as nat) == usize::MAX + 1) by {
                vstd::arithmetic::power2::lemma2_to64();
            }
        }
        r = r * 2;
        i = i + 1;
    }
    r
}

/// Where the new program's first thread starts: at the interpreter's
/// entry if there is one, else at the executable's; its stack pointer is
/// `stack_off` bytes into the stack.
pub fn thread_start(exe: &ElfInfo, interp: Option<ElfInfo>, layout: &ExecLayout, stack_off: usize) -> (r: (usize, usize))
    requires
        stack_off <= layout.stack_size,
        layout.stack_base + layout.stack_size <= usize::MAX,
    ensures
        r.0 == match interp {
            Some(i) => i.at_entry,
            None => exe.at_entry,
        },
        r.1 == layout.stack_base + stack_off,
{
    let entry = match interp {
        Some(i) => i.at_entry,
        None => exe.at_entry,
    };
    (entry, layout.stack_base + stack_off)
}

} // verus!
