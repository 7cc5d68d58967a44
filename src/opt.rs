//! IR optimizer: constant folding, dead-code truncation and inlining of
//! small branch-free functions.
use vstd::prelude::*;
use crate::ir::{IRInstr, IRFunction, IRModule, copy_instr, copy_instrs, slots_below, ends_with_return, targets_in_range};

verus! {

/// 2^64.
pub open spec fn word() -> int {
    0x1_0000_0000_0000_0000
}

/// Reduces an integer to the signed 64-bit value with the same low 64 bits.
pub open spec fn wrap64(x: int) -> int {
    let m = x % word();
    if m > i64::MAX as int {
        m - word()
    } else {
        m
    }
}

/// Absolute value.
pub open spec fn magnitude(x: int) -> int {
    if x < 0 {
        -x
    } else {
        x
    }
}

/// Integer division rounding toward zero.
pub open spec fn quot_toward_zero(a: int, b: int) -> int {
    let q = magnitude(a) / magnitude(b);
    if (a < 0) != (b < 0) {
        -q
    } else {
        q
    }
}

/// What a 64-bit two's-complement ALU computes for `a op b`; `None` for an
/// operator that is not binary arithmetic or comparison, and for a division
/// or remainder by zero.
pub open spec fn alu(op: IRInstr, a: int, b: int) -> Option<int> {
    match op {
        IRInstr::Add => Some(wrap64(a + b)),
        IRInstr::Sub => Some(wrap64(a - b)),
        IRInstr::Mul => Some(wrap64(a * b)),
        IRInstr::Div => if b == 0 {
            None
        } else {
            Some(wrap64(quot_toward_zero(a, b)))
        },
        IRInstr::Mod => if b == 0 {
            None
        } else {
            Some(wrap64(a - b * quot_toward_zero(a, b)))
        },
        IRInstr::Eq => Some(if a == b { 1 } else { 0 }),
        IRInstr::Ne => Some(if a != b { 1 } else { 0 }),
        IRInstr::Lt => Some(if a < b { 1 } else { 0 }),
        IRInstr::Le => Some(if a <= b { 1 } else { 0 }),
        IRInstr::Gt => Some(if a > b { 1 } else { 0 }),
        IRInstr::Ge => Some(if a >= b { 1 } else { 0 }),
        _ => None,
    }
}

/// The constant that replaces the window `x, y, op`, if it folds: both
/// operands are integer constants, `op` is arithmetic or a comparison, and
/// no division or remainder by zero is involved.
pub open spec fn fold_window(x: IRInstr, y: IRInstr, op: IRInstr) -> Option<i64> {
    match (x, y) {
        (IRInstr::LoadConstInt(a), IRInstr::LoadConstInt(b)) => match op {
            IRInstr::Add => Some(a.wrapping_add(b)),
            IRInstr::Sub => Some(a.wrapping_sub(b)),
            IRInstr::Mul => Some(a.wrapping_mul(b)),
            IRInstr::Div => if b == 0 {
                None
            } else {
                Some(
                    match a.checked_div(b) {
                        Some(q) => q,
                        None => i64::MIN,
                    },
                )
            },
            IRInstr::Mod => if b == 0 {
                None
            } else {
                Some(
                    match a.checked_rem(b) {
                        Some(q) => q,
                        None => 0,
                    },
                )
            },
            IRInstr::Eq => Some(if a == b { 1 } else { 0 }),
            IRInstr::Ne => Some(if a != b { 1 } else { 0 }),
            IRInstr::Lt => Some(if a < b { 1 } else { 0 }),
            IRInstr::Le => Some(if a <= b { 1 } else { 0 }),
            IRInstr::Gt => Some(if a > b { 1 } else { 0 }),
            IRInstr::Ge => Some(if a >= b { 1 } else { 0 }),
            _ => None,
        },
        _ => None,
    }
}

/// The folding pass from window position `i`: a folded window is replaced
/// by its constant and the window steps back one place, so that the new
/// constant can meet its left neighbour; otherwise the window moves on.
pub open spec fn fold_from(s: Seq<IRInstr>, i: int) -> Seq<IRInstr>
    decreases 2 * s.len() - i,
    when 0 <= i <= s.len()
{
    if i + 2 < s.len() {
        match fold_window(s[i], s[i + 1], s[i + 2]) {
            Some(v) => if lands_inside(s, i) {
                fold_from(s, i + 1)
            } else {
                fold_from(fold_at(s, i, v), if i > 0 { i - 1 } else { 0 })
            },
            None => fold_from(s, i + 1),
        }
    } else {
        s
    }
}

/// The target of a jump.
pub open spec fn target_of(i: IRInstr) -> Option<int> {
    match i {
        IRInstr::Jump(t) => Some(t as int),
        IRInstr::JumpIfFalse(t) => Some(t as int),
        _ => None,
    }
}

/// Some jump of `s` lands on the second or third instruction of the window
/// at `i`; such a window is not folded, since its middle would vanish.
pub open spec fn lands_inside(s: Seq<IRInstr>, i: int) -> bool {
    exists|j: int| 0 <= j < s.len() && (#[trigger] target_of(s[j]) == Some(i + 1) || target_of(s[j]) == Some(i + 2))
}

/// A jump past index `at` moved two places back, as removing two
/// instructions after `at` requires.
pub open spec fn shift_back(i: IRInstr, at: int) -> IRInstr {
    match i {
        IRInstr::Jump(t) => if t > at { IRInstr::Jump((t - 2) as usize) } else { i },
        IRInstr::JumpIfFalse(t) => if t > at { IRInstr::JumpIfFalse((t - 2) as usize) } else { i },
        _ => i,
    }
}

/// `s` with the window at `i` replaced by `LoadConstInt(v)` and every jump
/// target moved to where its instruction now stands.
pub open spec fn fold_at(s: Seq<IRInstr>, i: int, v: i64) -> Seq<IRInstr> {
    (s.subrange(0, i) + seq![IRInstr::LoadConstInt(v)] + s.subrange(i + 3, s.len() as int)).map_values(
        |x: IRInstr| shift_back(x, i),
    )
}

/// The result of constant folding on a whole instruction list.
pub open spec fn folded(s: Seq<IRInstr>) -> Seq<IRInstr> {
    fold_from(s, 0)
}

/// `Return` and `Panic` end the execution of a function.
pub open spec fn is_exit(i: IRInstr) -> bool {
    i is Return || i is Panic
}

/// Every jump among the first `e + 1` instructions lands at or before `e`.
pub open spec fn jumps_within(s: Seq<IRInstr>, e: int) -> bool {
    forall|j: int|
        0 <= j <= e && j < s.len() ==> match #[trigger] s[j] {
            IRInstr::Jump(t) => t <= e,
            IRInstr::JumpIfFalse(t) => t <= e,
            _ => true,
        }
}

/// The first exit at or after `i` that no earlier jump jumps past, or
/// `s.len()` when there is none.
pub open spec fn cut_from(s: Seq<IRInstr>, i: int) -> int
    decreases s.len() - i,
    when 0 <= i <= s.len()
{
    if i >= s.len() {
        s.len() as int
    } else if is_exit(s[i]) && jumps_within(s, i) {
        i
    } else {
        cut_from(s, i + 1)
    }
}

/// Where truncation cuts: the first exit that no earlier jump jumps past.
pub open spec fn cut_point(s: Seq<IRInstr>) -> int {
    cut_from(s, 0)
}

/// `s` truncated after its cut point.
pub open spec fn truncated(s: Seq<IRInstr>) -> Seq<IRInstr> {
    if cut_point(s) < s.len() {
        s.subrange(0, cut_point(s) + 1)
    } else {
        s
    }
}

/// Folds one window, as `fold_window` states.
pub fn fold_triple(x: &IRInstr, y: &IRInstr, op: &IRInstr) -> (r: Option<i64>)
    ensures
        r == fold_window(*x, *y, *op),
{
    match (x, y) {
        (IRInstr::LoadConstInt(a), IRInstr::LoadConstInt(b)) => {
            let a = *a;
            let b = *b;
            match op {
                IRInstr::Add => Some(a.wrapping_add(b)),
                IRInstr::Sub => Some(a.wrapping_sub(b)),
                IRInstr::Mul => Some(a.wrapping_mul(b)),
                IRInstr::Div => if b == 0 {
                    None
                } else {
                    Some(
                        match a.checked_div(b) {
                            Some(q) => q,
                            None => i64::MIN,
                        },
                    )
                },
                IRInstr::Mod => if b == 0 {
                    None
                } else {
                    Some(
                        match a.checked_rem(b) {
                            Some(q) => q,
                            None => 0,
                        },
                    )
                },
                IRInstr::Eq => Some(if a == b { 1 } else { 0 }),
                IRInstr::Ne => Some(if a != b { 1 } else { 0 }),
                IRInstr::Lt => Some(if a < b { 1 } else { 0 }),
                IRInstr::Le => Some(if a <= b { 1 } else { 0 }),
                IRInstr::Gt => Some(if a > b { 1 } else { 0 }),
                IRInstr::Ge => Some(if a >= b { 1 } else { 0 }),
                _ => None,
            }
        },
        _ => None,
    }
}

/// Folds constant arithmetic and comparisons: each window
/// `LoadConstInt(a), LoadConstInt(b), op` becomes `LoadConstInt(a op b)`,
/// except a division or remainder by zero, which is left for run time, and
/// a window that a jump lands inside. Jump targets follow the instructions
/// they designate.
pub fn const_fold(ir: &mut Vec<IRInstr>)
    ensures
        final(ir)@ == folded(old(ir)@),
{
    let mut i: usize = 0;
    while i < ir.len() && ir.len() - i > 2
        invariant
            i <= ir@.len(),
            fold_from(ir@, i as int) == folded(old(ir)@),
        decreases 2 * ir@.len() - i,
    {
        let w = fold_triple(&ir[i], &ir[i + 1], &ir[i + 2]);
        match w {
            Some(v) => {
                if jump_lands_inside(ir, i) {
                    i = i + 1;
                } else {
                    let ghost s = ir@;
                    ir.remove(i + 2);
                    ir.remove(i + 1);
                    ir.remove(i);
                    ir.insert(i, IRInstr::LoadConstInt(v));
                    let ghost t = ir@;
                    assert(t =~= s.subrange(0, i as int) + seq![IRInstr::LoadConstInt(v)] + s.subrange(
                        i + 3,
                        s.len() as int,
                    ));
                    assert forall|j: int| 0 <= j < t.len() implies match #[trigger] target_of(t[j]) {
                        Some(x) => x <= i || x >= i + 3,
                        None => true,
                    } by {
                        if j < i {
                            assert(t[j] == s[j]);
                        } else if j > i {
                            assert(t[j] == s[j + 2]);
                        }
                    }
                    shift_targets_back(ir, i);
                    assert(ir@ =~= fold_at(s, i as int, v));
                    if i > 0 {
                        i = i - 1;
                    }
                }
            },
            None => {
                i = i + 1;
            },
        }
    }
}

fn jump_lands_inside(ir: &Vec<IRInstr>, i: usize) -> (r: bool)
    requires
        i + 2 < ir@.len(),
    ensures
        r == lands_inside(ir@, i as int),
{
    let mut j: usize = 0;
    while j < ir.len()
        invariant
            i + 2 < ir@.len(),
            j <= ir@.len(),
            forall|k: int| 0 <= k < j ==> !(#[trigger] target_of(ir@[k]) == Some(i + 1) || target_of(ir@[k]) == Some(i + 2)),
        decreases ir@.len() - j,
    {
        let t = match &ir[j] {
            IRInstr::Jump(t) => Some(*t),
            IRInstr::JumpIfFalse(t) => Some(*t),
            _ => None,
        };
        match t {
            Some(t) => {
                if t == i + 1 || t == i + 2 {
                    assert(target_of(ir@[j as int]) == Some(t as int));
                    return true;
                }
            },
            None => {},
        }
        assert(!(target_of(ir@[j as int]) == Some(i + 1) || target_of(ir@[j as int]) == Some(i + 2)));
        j = j + 1;
    }
    false
}

/// Moves every jump target past `at` two places back.
fn shift_targets_back(ir: &mut Vec<IRInstr>, at: usize)
    requires
        forall|j: int|
            0 <= j < old(ir)@.len() ==> match #[trigger] target_of(old(ir)@[j]) {
                Some(t) => t <= at || t >= at + 3,
                None => true,
            },
    ensures
        final(ir)@ == old(ir)@.map_values(|x: IRInstr| shift_back(x, at as int)),
{
    let mut k: usize = 0;
    while k < ir.len()
        invariant
            k <= ir@.len(),
            ir@.len() == old(ir)@.len(),
            forall|j: int| 0 <= j < k ==> ir@[j] == shift_back(old(ir)@[j], at as int),
            forall|j: int| k <= j < ir@.len() ==> ir@[j] == old(ir)@[j],
            forall|j: int|
                0 <= j < old(ir)@.len() ==> match #[trigger] target_of(old(ir)@[j]) {
                    Some(t) => t <= at || t >= at + 3,
                    None => true,
                },
        decreases ir@.len() - k,
    {
        assert(ir@[k as int] == old(ir)@[k as int]);
        assert(match target_of(old(ir)@[k as int]) {
            Some(t) => t <= at || t >= at + 3,
            None => true,
        });
        let x = match &ir[k] {
            IRInstr::Jump(t) => if *t > at { Some(IRInstr::Jump(*t - 2)) } else { None },
            IRInstr::JumpIfFalse(t) => if *t > at { Some(IRInstr::JumpIfFalse(*t - 2)) } else { None },
            _ => None,
        };
        match x {
            Some(y) => {
                ir.set(k, y);
            },
            None => {},
        }
        k = k + 1;
    }
    assert(ir@ =~= old(ir)@.map_values(|x: IRInstr| shift_back(x, at as int)));
}

/// Truncates the list after the first `Return` or `Panic` that no earlier
/// jump jumps past: everything after it is unreachable. `Jump` does not end
/// the list: a loop's closing jump is followed by the loop's exit.
pub fn dead_code_elim(ir: &mut Vec<IRInstr>)
    ensures
        final(ir)@ == truncated(old(ir)@),
{
    let mut i: usize = 0;
    let mut furthest: usize = 0;
    while i < ir.len()
        invariant
            ir@ == old(ir)@,
            i <= ir@.len(),
            cut_from(ir@, i as int) == cut_point(ir@),
            forall|j: int| 0 <= j < i ==> match #[trigger] target_of(ir@[j]) {
                Some(t) => t <= furthest,
                None => true,
            },
            furthest == 0 || exists|j: int| 0 <= j < i && #[trigger] target_of(ir@[j]) == Some(furthest as int),
        decreases ir@.len() - i,
    {
        let (exit, target) = match &ir[i] {
            IRInstr::Return | IRInstr::Panic => (true, None),
            IRInstr::Jump(t) => (false, Some(*t)),
            IRInstr::JumpIfFalse(t) => (false, Some(*t)),
            _ => (false, None),
        };
        if exit && furthest <= i {
            assert(jumps_within(ir@, i as int)) by {
                assert forall|j: int| 0 <= j <= i && j < ir@.len() implies match #[trigger] ir@[j] {
                    IRInstr::Jump(t) => t <= i,
                    IRInstr::JumpIfFalse(t) => t <= i,
                    _ => true,
                } by {
                    if j < i {
                        assert(match target_of(ir@[j]) {
                            Some(t) => t <= furthest,
                            None => true,
                        });
                    }
                }
            }
            ir.truncate(i + 1);
            return ;
        }
        if exit {
            let ghost j = choose|j: int| 0 <= j < i && #[trigger] target_of(ir@[j]) == Some(furthest as int);
            assert(!jumps_within(ir@, i as int)) by {
                assert(match ir@[j] {
                    IRInstr::Jump(t) => t > i,
                    IRInstr::JumpIfFalse(t) => t > i,
                    _ => false,
                });
            }
        }
        match target {
            Some(t) => {
                assert(target_of(ir@[i as int]) == Some(t as int));
                if t > furthest {
                    furthest = t;
                }
            },
            None => {
                assert(target_of(ir@[i as int]) is None);
            },
        }
        i = i + 1;
    }
}

/// Folding, then truncation, on one instruction list.
pub fn optimize(ir: &mut Vec<IRInstr>)
    ensures
        final(ir)@ == truncated(folded(old(ir)@)),
{
    const_fold(ir);
    dead_code_elim(ir);
}

/// Folding is sound: whenever a window folds, its constant is what a 64-bit
/// wrapping ALU computes for the window's operands and operator, and no
/// division or remainder by zero ever folds.
pub proof fn fold_is_sound(a: i64, b: i64, op: IRInstr)
    ensures
        fold_window(IRInstr::LoadConstInt(a), IRInstr::LoadConstInt(b), op) matches Some(v)
            ==> alu(op, a as int, b as int) == Some(v as int),
        (op is Div || op is Mod) && b == 0 ==> fold_window(
            IRInstr::LoadConstInt(a),
            IRInstr::LoadConstInt(b),
            op,
        ) is None,
{
    match op {
        IRInstr::Add => {
            assert(wrap64(a + b) == a.wrapping_add(b));
        },
        IRInstr::Sub => {
            assert(wrap64(a - b) == a.wrapping_sub(b));
        },
        IRInstr::Mul => {},
        IRInstr::Div => {
            if b != 0 {
                lemma_div_matches(a, b);
            }
        },
        IRInstr::Mod => {
            if b != 0 {
                lemma_div_matches(a, b);
                lemma_rem_matches(a, b);
            }
        },
        _ => {},
    }
}

proof fn lemma_div_matches(a: i64, b: i64)
    requires
        b != 0,
    ensures
        wrap64(quot_toward_zero(a as int, b as int)) == (match a.checked_div(b) {
            Some(q) => q,
            None => i64::MIN,
        }) as int,
{
    let x = a as int;
    let d = b as int;
    let q = quot_toward_zero(x, d);
    let ax = magnitude(x);
    let ad = magnitude(d);
    vstd::arithmetic::div_mod::lemma_fundamental_div_mod(ax, ad);
    vstd::arithmetic::div_mod::lemma_mod_bound(ax, ad);
    assert(ax / ad >= 0) by (nonlinear_arith)
        requires
            ad >= 1,
            ax >= 0,
    ;
    if ad >= 2 {
        assert(2 * (ax / ad) <= ad * (ax / ad)) by (nonlinear_arith)
            requires
                ad >= 2,
                ax / ad >= 0,
        ;
        assert(i64::MIN <= q <= i64::MAX);
        assert(wrap64(q) == q);
    } else {
        assert(ad == 1);
        assert(ax % ad == 0);
        assert(ax / ad == ax) by (nonlinear_arith)
            requires
                ad == 1,
                ax == ad * (ax / ad) + ax % ad,
                ax % ad == 0,
        ;
        if x == i64::MIN as int && d == -1 {
            assert(q == 0x8000_0000_0000_0000);
            assert(wrap64(q) == i64::MIN as int);
        } else {
            assert(i64::MIN <= q <= i64::MAX);
            assert(wrap64(q) == q);
        }
    }
}

proof fn lemma_rem_matches(a: i64, b: i64)
    requires
        b != 0,
    ensures
        wrap64((a as int) - (b as int) * quot_toward_zero(a as int, b as int)) == (match a.checked_rem(b) {
            Some(r) => r,
            None => 0,
        }) as int,
{
    let x = a as int;
    let d = b as int;
    let ax = magnitude(x);
    let ad = magnitude(d);
    vstd::arithmetic::div_mod::lemma_fundamental_div_mod(ax, ad);
    vstd::arithmetic::div_mod::lemma_mod_bound(ax, ad);
    let q = quot_toward_zero(x, d);
    let r = x - d * q;
    if (x < 0) != (d < 0) {
        assert(d * q == -(d * (ax / ad))) by (nonlinear_arith)
            requires
                q == -(ax / ad),
        ;
    } else {
        assert(d * q == d * (ax / ad));
    }
    if x < 0 && d < 0 {
        assert(d * (ax / ad) == -(ad * (ax / ad))) by (nonlinear_arith)
            requires
                d == -ad,
        ;
    } else if x < 0 {
        assert(d == ad);
    } else if d < 0 {
        assert(d * (ax / ad) == -(ad * (ax / ad))) by (nonlinear_arith)
            requires
                d == -ad,
        ;
    }
    assert(-ad < r < ad);
    assert(wrap64(r) == r);
}

/// One step of control flow: instruction `j` may pass control to `k`.
pub open spec fn flows_to(s: Seq<IRInstr>, j: int, k: int) -> bool {
    0 <= j < s.len() && match s[j] {
        IRInstr::Return | IRInstr::Panic => false,
        IRInstr::Jump(t) => k == t,
        IRInstr::JumpIfFalse(t) => k == t || k == j + 1,
        _ => k == j + 1,
    }
}

/// Instruction `k` can be reached from the entry in at most `n` steps.
pub open spec fn reachable_within(s: Seq<IRInstr>, n: nat, k: int) -> bool
    decreases n,
{
    if n == 0 {
        k == 0
    } else {
        reachable_within(s, (n - 1) as nat, k) || exists|j: int|
            reachable_within(s, (n - 1) as nat, j) && #[trigger] flows_to(s, j, k)
    }
}

/// Instruction `k` can be reached from the entry.
pub open spec fn reachable(s: Seq<IRInstr>, k: int) -> bool {
    exists|n: nat| #[trigger] reachable_within(s, n, k)
}

proof fn lemma_cut_from(s: Seq<IRInstr>, i: int)
    requires
        0 <= i <= s.len(),
    ensures
        i <= cut_from(s, i) <= s.len(),
        cut_from(s, i) < s.len() ==> is_exit(s[cut_from(s, i)]) && jumps_within(s, cut_from(s, i)),
    decreases s.len() - i,
{
    if i < s.len() && !(is_exit(s[i]) && jumps_within(s, i)) {
        lemma_cut_from(s, i + 1);
    }
}

/// Where the cut point sits: it is an exit, and no jump up to it lands
/// beyond it.
pub proof fn lemma_cut_point(s: Seq<IRInstr>)
    ensures
        0 <= cut_point(s) <= s.len(),
        cut_point(s) < s.len() ==> is_exit(s[cut_point(s)]) && jumps_within(s, cut_point(s)),
{
    lemma_cut_from(s, 0);
}

proof fn lemma_reach_bounded(s: Seq<IRInstr>, n: nat, k: int)
    requires
        cut_point(s) < s.len(),
        reachable_within(s, n, k),
    ensures
        k <= cut_point(s),
    decreases n,
{
    lemma_cut_point(s);
    let e = cut_point(s);
    if n > 0 {
        if !reachable_within(s, (n - 1) as nat, k) {
            let j = choose|j: int| reachable_within(s, (n - 1) as nat, j) && #[trigger] flows_to(s, j, k);
            lemma_reach_bounded(s, (n - 1) as nat, j);
            assert(j != e);
            assert(match s[j] {
                IRInstr::Jump(t) => t <= e,
                IRInstr::JumpIfFalse(t) => t <= e,
                _ => true,
            });
        } else {
            lemma_reach_bounded(s, (n - 1) as nat, k);
        }
    }
}

/// Truncation never removes an instruction that control flow can reach
/// from the entry.
pub proof fn truncation_keeps_reachable(s: Seq<IRInstr>, k: int)
    requires
        reachable(s, k),
        0 <= k < s.len(),
    ensures
        k < truncated(s).len(),
        truncated(s)[k] == s[k],
{
    lemma_cut_point(s);
    if cut_point(s) < s.len() {
        let n = choose|n: nat| #[trigger] reachable_within(s, n, k);
        lemma_reach_bounded(s, n, k);
    }
}

/// Truncation keeps every jump target inside the function.
pub proof fn truncation_keeps_targets(s: Seq<IRInstr>)
    requires
        targets_in_range(s),
    ensures
        targets_in_range(truncated(s)),
{
    lemma_cut_point(s);
    let e = cut_point(s);
    if e < s.len() {
        let t = truncated(s);
        assert forall|k: int| 0 <= k < t.len() implies match #[trigger] t[k] {
            IRInstr::Jump(x) => x <= t.len(),
            IRInstr::JumpIfFalse(x) => x <= t.len(),
            _ => true,
        } by {
            assert(t[k] == s[k]);
            assert(match s[k] {
                IRInstr::Jump(x) => x <= e,
                IRInstr::JumpIfFalse(x) => x <= e,
                _ => true,
            });
        }
    }
}

/// A function that may be inlined: at most five instructions and five
/// parameters, no jump, no `Call`, `CallStd` or `CallAI`, a single `Return`
/// which is its last instruction, and its slots within its locals.
pub open spec fn is_candidate(f: IRFunction) -> bool {
    let s = f.instructions@;
    &&& s.len() <= 5
    &&& f.param_count <= 5
    &&& ends_with_return(s)
    &&& forall|k: int|
        0 <= k < s.len() ==> !(#[trigger] s[k] is Jump) && !(s[k] is JumpIfFalse) && !(
        s[k] is Call) && !(s[k] is CallStd) && !(s[k] is CallAI)
    &&& forall|k: int| 0 <= k < s.len() - 1 ==> !(#[trigger] s[k] is Return)
    &&& f.param_count <= f.local_count
    &&& slots_below(s, f.local_count as int)
}

/// Index of the last candidate named `name` among `fs[0..n]`.
pub open spec fn candidate_in(fs: Seq<IRFunction>, n: int, name: Seq<char>) -> Option<int>
    decreases n,
    when 0 <= n <= fs.len()
{
    if n == 0 {
        None
    } else if fs[n - 1].name@ == name && is_candidate(fs[n - 1]) {
        Some(n - 1)
    } else {
        candidate_in(fs, n - 1, name)
    }
}

/// The callee that replaces instruction `i` when the caller already has
/// `lc` locals: a candidate of the module with the call's name and arity,
/// whose slots, moved up by `lc`, still fit the 32-bit slot numbering.
pub open spec fn inline_target(fs: Seq<IRFunction>, i: IRInstr, lc: int) -> Option<int> {
    match i {
        IRInstr::Call(name, n) => match candidate_in(fs, fs.len() as int, name@) {
            Some(c) => if fs[c].param_count == n && lc + fs[c].local_count <= u32::MAX {
                Some(c)
            } else {
                None
            },
            None => None,
        },
        _ => None,
    }
}

/// An instruction with its local slot moved up by `base`.
pub open spec fn shift_slot(i: IRInstr, base: int) -> IRInstr {
    match i {
        IRInstr::LoadLocal(x) => IRInstr::LoadLocal((base + x) as u32),
        IRInstr::StoreLocal(x) => IRInstr::StoreLocal((base + x) as u32),
        _ => i,
    }
}

/// `StoreLocal(base + n - 1), ..., StoreLocal(base)`: pops `n` arguments.
pub open spec fn arg_stores(base: int, n: int) -> Seq<IRInstr> {
    Seq::new(n as nat, |j: int| IRInstr::StoreLocal((base + n - 1 - j) as u32))
}

/// A callee body without its final `Return`, slots moved up by `base`.
pub open spec fn spliced_body(body: Seq<IRInstr>, base: int) -> Seq<IRInstr> {
    body.drop_last().map_values(|i: IRInstr| shift_slot(i, base))
}

/// Inlining over the first `m` instructions of `s`, starting with `lc0`
/// locals: the instructions produced and the locals used afterwards.
pub open spec fn inline_upto(s: Seq<IRInstr>, fs: Seq<IRFunction>, lc0: int, m: int) -> (Seq<IRInstr>, int)
    decreases m,
    when 0 <= m <= s.len()
{
    if m == 0 {
        (seq![], lc0)
    } else {
        let (prev, lc) = inline_upto(s, fs, lc0, m - 1);
        match inline_target(fs, s[m - 1], lc) {
            Some(c) => (
                prev + arg_stores(lc, fs[c].param_count as int) + spliced_body(fs[c].instructions@, lc),
                lc + fs[c].local_count,
            ),
            None => (prev.push(retarget(s[m - 1], s, fs, lc0)), lc),
        }
    }
}

/// The length of the code that inlining produces from the first `m`
/// instructions of `s`, and the locals used afterwards: where original
/// instruction `m` lands.
pub open spec fn inline_len(s: Seq<IRInstr>, fs: Seq<IRFunction>, lc0: int, m: int) -> (int, int)
    decreases m,
    when 0 <= m <= s.len()
{
    if m == 0 {
        (0, lc0)
    } else {
        let (n, lc) = inline_len(s, fs, lc0, m - 1);
        match inline_target(fs, s[m - 1], lc) {
            Some(c) => (n + fs[c].param_count + fs[c].instructions@.len() - 1, lc + fs[c].local_count),
            None => (n + 1, lc),
        }
    }
}

/// A jump moved to where its target instruction lands after inlining; a
/// target outside the function stays as it is.
pub open spec fn retarget(i: IRInstr, s: Seq<IRInstr>, fs: Seq<IRFunction>, lc0: int) -> IRInstr {
    match i {
        IRInstr::Jump(t) => if t <= s.len() { IRInstr::Jump(inline_len(s, fs, lc0, t as int).0 as usize) } else { i },
        IRInstr::JumpIfFalse(t) => if t <= s.len() {
            IRInstr::JumpIfFalse(inline_len(s, fs, lc0, t as int).0 as usize)
        } else {
            i
        },
        _ => i,
    }
}

/// `g` is `f` after inlining the candidates of `fs`; a function whose
/// inlined code would not fit in memory stays as it is.
pub open spec fn inlined_as(g: IRFunction, f: IRFunction, fs: Seq<IRFunction>) -> bool {
    let s = f.instructions@;
    let r = inline_upto(s, fs, f.local_count as int, s.len() as int);
    &&& g.name == f.name
    &&& g.param_count == f.param_count
    &&& if inline_len(s, fs, f.local_count as int, s.len() as int).0 <= usize::MAX {
        g.instructions@ == r.0 && g.local_count == r.1
    } else {
        g.instructions@ == s && g.local_count == f.local_count
    }
}

proof fn lemma_inline_len(s: Seq<IRInstr>, fs: Seq<IRFunction>, lc0: int, m: int)
    requires
        0 <= m <= s.len(),
    ensures
        inline_upto(s, fs, lc0, m).0.len() == inline_len(s, fs, lc0, m).0,
        inline_upto(s, fs, lc0, m).1 == inline_len(s, fs, lc0, m).1,
    decreases m,
{
    if m > 0 {
        lemma_inline_len(s, fs, lc0, m - 1);
        let lc = inline_len(s, fs, lc0, m - 1).1;
        match inline_target(fs, s[m - 1], lc) {
            Some(c) => {
                lemma_candidate_in(fs, fs.len() as int, s[m - 1]->Call_0@);
            },
            None => {},
        }
    }
}

proof fn lemma_inline_len_mono(s: Seq<IRInstr>, fs: Seq<IRFunction>, lc0: int, a: int, b: int)
    requires
        0 <= a <= b <= s.len(),
    ensures
        inline_len(s, fs, lc0, a).0 <= inline_len(s, fs, lc0, b).0,
    decreases b - a,
{
    if a < b {
        lemma_inline_len_mono(s, fs, lc0, a, b - 1);
        lemma_inline_len(s, fs, lc0, b);
        lemma_inline_len(s, fs, lc0, b - 1);
        let lc = inline_len(s, fs, lc0, b - 1).1;
        match inline_target(fs, s[b - 1], lc) {
            Some(c) => {
                lemma_candidate_in(fs, fs.len() as int, s[b - 1]->Call_0@);
            },
            None => {},
        }
    }
}

proof fn lemma_candidate_in(fs: Seq<IRFunction>, n: int, name: Seq<char>)
    requires
        0 <= n <= fs.len(),
    ensures
        candidate_in(fs, n, name) matches Some(c) ==> 0 <= c < n && is_candidate(fs[c])
            && fs[c].name@ == name,
    decreases n,
{
    if n > 0 {
        lemma_candidate_in(fs, n - 1, name);
    }
}

fn candidate_check(f: &IRFunction) -> (r: bool)
    ensures
        r == is_candidate(*f),
{
    let n = f.instructions.len();
    if n > 5 || f.param_count > 5 || n == 0 || f.param_count > f.local_count {
        return false;
    }
    match &f.instructions[n - 1] {
        IRInstr::Return => {},
        _ => {
            return false;
        },
    }
    let mut k: usize = 0;
    while k < n
        invariant
            n == f.instructions@.len(),
            k <= n,
            forall|j: int|
                0 <= j < k ==> !(#[trigger] f.instructions@[j] is Jump) && !(
                f.instructions@[j] is JumpIfFalse) && !(f.instructions@[j] is Call) && !(
                f.instructions@[j] is CallStd) && !(f.instructions@[j] is CallAI),
            forall|j: int| 0 <= j < k && j < n - 1 ==> !(#[trigger] f.instructions@[j] is Return),
            forall|j: int|
                0 <= j < k ==> match #[trigger] f.instructions@[j] {
                    IRInstr::LoadLocal(x) => x < f.local_count,
                    IRInstr::StoreLocal(x) => x < f.local_count,
                    _ => true,
                },
        decreases n - k,
    {
        match &f.instructions[k] {
            IRInstr::Jump(_) | IRInstr::JumpIfFalse(_) | IRInstr::Call(_, _) | IRInstr::CallStd(_)
            | IRInstr::CallAI(_) => {
                return false;
            },
            IRInstr::Return => {
                if k + 1 < n {
                    return false;
                }
            },
            IRInstr::LoadLocal(x) => {
                if *x as usize >= f.local_count {
                    return false;
                }
            },
            IRInstr::StoreLocal(x) => {
                if *x as usize >= f.local_count {
                    return false;
                }
            },
            _ => {},
        }
        k = k + 1;
    }
    true
}

fn find_candidate(fs: &Vec<IRFunction>, name: &String) -> (r: Option<usize>)
    ensures
        r matches Some(c) ==> candidate_in(fs@, fs@.len() as int, name@) == Some(c as int)
            && c < fs@.len() && is_candidate(fs@[c as int]),
        r is None ==> candidate_in(fs@, fs@.len() as int, name@) is None,
{
    let mut j: usize = fs.len();
    while j > 0
        invariant
            j <= fs@.len(),
            candidate_in(fs@, fs@.len() as int, name@) == candidate_in(fs@, j as int, name@),
        decreases j,
    {
        if fs[j - 1].name == *name && candidate_check(&fs[j - 1]) {
            proof {
                lemma_candidate_in(fs@, fs@.len() as int, name@);
            }
            return Some(j - 1);
        }
        j = j - 1;
    }
    None
}

fn shift_instr(i: &IRInstr, base: usize) -> (r: IRInstr)
    requires
        match *i {
            IRInstr::LoadLocal(x) => base + x <= u32::MAX,
            IRInstr::StoreLocal(x) => base + x <= u32::MAX,
            _ => true,
        },
    ensures
        r == shift_slot(*i, base as int),
{
    match i {
        IRInstr::LoadLocal(x) => IRInstr::LoadLocal((base + *x as usize) as u32),
        IRInstr::StoreLocal(x) => IRInstr::StoreLocal((base + *x as usize) as u32),
        _ => copy_instr(i),
    }
}

/// The candidate that replaces instruction `i` when the caller already
/// has `lc` locals, as `inline_target` states.
fn decide(i: &IRInstr, fs: &Vec<IRFunction>, lc: usize) -> (r: Option<usize>)
    ensures
        r is None <==> inline_target(fs@, *i, lc as int) is None,
        r matches Some(c) ==> inline_target(fs@, *i, lc as int) == Some(c as int) && c < fs@.len() && is_candidate(
            fs@[c as int],
        ) && lc + fs@[c as int].local_count <= u32::MAX && 1 <= fs@[c as int].instructions@.len() <= 5
            && fs@[c as int].param_count <= 5 && fs@[c as int].param_count <= fs@[c as int].local_count,
{
    match i {
        IRInstr::Call(name, n) => {
            proof {
                lemma_candidate_in(fs@, fs@.len() as int, name@);
            }
            match find_candidate(fs, name) {
                Some(c) => {
                    let callee = &fs[c];
                    if callee.param_count == *n && lc <= u32::MAX as usize && callee.local_count
                        <= u32::MAX as usize - lc {
                        Some(c)
                    } else {
                        None
                    }
                },
                None => None,
            }
        },
        _ => None,
    }
}

/// Where each instruction of `s` lands after inlining, and one more entry
/// for the end; `None` when the inlined code would not fit in memory.
fn inline_positions(s: &Vec<IRInstr>, fs: &Vec<IRFunction>, lc0: usize) -> (r: Option<Vec<usize>>)
    ensures
        r matches Some(p) ==> p@.len() == s@.len() + 1 && forall|t: int|
            0 <= t <= s@.len() ==> #[trigger] p@[t] == inline_len(s@, fs@, lc0 as int, t).0,
        r is None ==> inline_len(s@, fs@, lc0 as int, s@.len() as int).0 > usize::MAX,
{
    let mut p: Vec<usize> = vec![0];
    let mut n: usize = 0;
    let mut lc: usize = lc0;
    let mut m: usize = 0;
    while m < s.len()
        invariant
            m <= s@.len(),
            p@.len() == m + 1,
            forall|t: int| 0 <= t <= m ==> #[trigger] p@[t] == inline_len(s@, fs@, lc0 as int, t).0,
            inline_len(s@, fs@, lc0 as int, m as int) == (n as int, lc as int),
        decreases s@.len() - m,
    {
        match decide(&s[m], fs, lc) {
            Some(c) => {
                let callee = &fs[c];
                assert(1 <= callee.instructions@.len() <= 5 && callee.param_count <= 5);
                let grow = callee.param_count + (callee.instructions.len() - 1);
                match n.checked_add(grow) {
                    Some(n2) => {
                        n = n2;
                        lc = lc + callee.local_count;
                    },
                    None => {
                        proof {
                            lemma_inline_len_mono(s@, fs@, lc0 as int, m + 1, s@.len() as int);
                        }
                        return None;
                    },
                }
            },
            None => {
                match n.checked_add(1) {
                    Some(n2) => {
                        n = n2;
                    },
                    None => {
                        proof {
                            lemma_inline_len_mono(s@, fs@, lc0 as int, m + 1, s@.len() as int);
                        }
                        return None;
                    },
                }
            },
        }
        p.push(n);
        m = m + 1;
    }
    Some(p)
}

fn retarget_instr(i: &IRInstr, len: usize, pos: &Vec<usize>, s: Ghost<Seq<IRInstr>>, fs: Ghost<Seq<IRFunction>>, lc0: Ghost<int>) -> (r: IRInstr)
    requires
        len == s@.len(),
        pos@.len() == len + 1,
        forall|t: int| 0 <= t <= len ==> #[trigger] pos@[t] == inline_len(s@, fs@, lc0@, t).0,
    ensures
        r == retarget(*i, s@, fs@, lc0@),
{
    match i {
        IRInstr::Jump(t) => if *t <= len {
            IRInstr::Jump(pos[*t])
        } else {
            copy_instr(i)
        },
        IRInstr::JumpIfFalse(t) => if *t <= len {
            IRInstr::JumpIfFalse(pos[*t])
        } else {
            copy_instr(i)
        },
        _ => copy_instr(i),
    }
}

/// Inlines the candidates of `fs` into `f`; jumps follow the instructions
/// they designate.
pub fn inline_in_function(f: &IRFunction, fs: &Vec<IRFunction>) -> (r: IRFunction)
    ensures
        inlined_as(r, *f, fs@),
{
    let s = &f.instructions;
    let pos = match inline_positions(s, fs, f.local_count) {
        Some(p) => p,
        None => {
            return IRFunction {
                name: f.name.clone(),
                param_count: f.param_count,
                instructions: copy_instrs(s),
                local_count: f.local_count,
            };
        },
    };
    let mut out: Vec<IRInstr> = Vec::new();
    let mut lc: usize = f.local_count;
    let mut m: usize = 0;
    while m < s.len()
        invariant
            s@ == f.instructions@,
            m <= s@.len(),
            pos@.len() == s@.len() + 1,
            forall|t: int| 0 <= t <= s@.len() ==> #[trigger] pos@[t] == inline_len(s@, fs@, f.local_count as int, t).0,
            inline_upto(s@, fs@, f.local_count as int, m as int) == (out@, lc as int),
        decreases s@.len() - m,
    {
        let ghost prev = out@;
        match decide(&s[m], fs, lc) {
            Some(c) => {
                let callee = &fs[c];
                let n = callee.param_count;
                let base = lc;
                let mut a: usize = 0;
                while a < n
                    invariant
                        a <= n,
                        n == callee.param_count,
                        callee.param_count <= callee.local_count,
                        base + callee.local_count <= u32::MAX,
                        out@ == prev + arg_stores(base as int, n as int).subrange(0, a as int),
                    decreases n - a,
                {
                    out.push(IRInstr::StoreLocal((base + (n - 1 - a)) as u32));
                    a = a + 1;
                    assert(out@ =~= prev + arg_stores(base as int, n as int).subrange(0, a as int));
                }
                assert(arg_stores(base as int, n as int).subrange(0, a as int) =~= arg_stores(base as int, n as int));
                let ghost mid = out@;
                let body = &callee.instructions;
                let mut b: usize = 0;
                while b + 1 < body.len()
                    invariant
                        b < body@.len() || body@.len() == 0,
                        body@ == callee.instructions@,
                        is_candidate(*callee),
                        base + callee.local_count <= u32::MAX,
                        out@ == mid + spliced_body(body@, base as int).subrange(0, b as int),
                    decreases body@.len() - b,
                {
                    assert(match body@[b as int] {
                        IRInstr::LoadLocal(x) => x < callee.local_count,
                        IRInstr::StoreLocal(x) => x < callee.local_count,
                        _ => true,
                    });
                    out.push(shift_instr(&body[b], base));
                    b = b + 1;
                    assert(out@ =~= mid + spliced_body(body@, base as int).subrange(0, b as int));
                }
                assert(spliced_body(body@, base as int).subrange(0, b as int) =~= spliced_body(body@, base as int));
                lc = lc + callee.local_count;
            },
            None => {
                let x = retarget_instr(&s[m], s.len(), &pos, Ghost(s@), Ghost(fs@), Ghost(f.local_count as int));
                out.push(x);
            },
        }
        m = m + 1;
    }
    proof {
        lemma_inline_len(s@, fs@, f.local_count as int, s@.len() as int);
        assert(pos@[s@.len() as int] == inline_len(s@, fs@, f.local_count as int, s@.len() as int).0);
    }
    IRFunction { name: f.name.clone(), param_count: f.param_count, instructions: out, local_count: lc }
}

/// Replaces each call of a small branch-free function by the function's
/// body: the arguments are stored into fresh slots above the caller's
/// locals, and the body reads and writes those slots.
pub fn inline_small_functions(module: &mut IRModule)
    ensures
        final(module).functions@.len() == old(module).functions@.len(),
        forall|k: int|
            0 <= k < old(module).functions@.len() ==> inlined_as(
                #[trigger] final(module).functions@[k],
                old(module).functions@[k],
                old(module).functions@,
            ),
{
    let mut out: Vec<IRFunction> = Vec::new();
    let mut k: usize = 0;
    while k < module.functions.len()
        invariant
            module.functions@ == old(module).functions@,
            k <= module.functions@.len(),
            out@.len() == k,
            forall|j: int|
                0 <= j < k ==> inlined_as(#[trigger] out@[j], module.functions@[j], module.functions@),
        decreases module.functions@.len() - k,
    {
        let g = inline_in_function(&module.functions[k], &module.functions);
        out.push(g);
        k = k + 1;
    }
    module.functions = out;
}

/// `g` is `f` with its instruction list folded and truncated.
pub open spec fn optimized_as(g: IRFunction, f: IRFunction) -> bool {
    &&& g.name == f.name
    &&& g.param_count == f.param_count
    &&& g.local_count == f.local_count
    &&& g.instructions@ == truncated(folded(f.instructions@))
}

fn optimized_copy(f: &IRFunction) -> (r: IRFunction)
    ensures
        optimized_as(r, *f),
{
    let mut instrs = copy_instrs(&f.instructions);
    optimize(&mut instrs);
    IRFunction {
        name: f.name.clone(),
        param_count: f.param_count,
        instructions: instrs,
        local_count: f.local_count,
    }
}

fn optimize_each(fs: &Vec<IRFunction>) -> (r: Vec<IRFunction>)
    ensures
        r@.len() == fs@.len(),
        forall|k: int| 0 <= k < fs@.len() ==> optimized_as(#[trigger] r@[k], fs@[k]),
{
    let mut out: Vec<IRFunction> = Vec::new();
    let mut k: usize = 0;
    while k < fs.len()
        invariant
            k <= fs@.len(),
            out@.len() == k,
            forall|j: int| 0 <= j < k ==> optimized_as(#[trigger] out@[j], fs@[j]),
        decreases fs@.len() - k,
    {
        out.push(optimized_copy(&fs[k]));
        k = k + 1;
    }
    out
}

/// `mid` is `fs` after the first folding and truncation, `inl` is `mid`
/// after inlining, and `out` is `inl` after the second folding and
/// truncation.
pub open spec fn optimizer_stages(
    fs: Seq<IRFunction>,
    mid: Seq<IRFunction>,
    inl: Seq<IRFunction>,
    out: Seq<IRFunction>,
) -> bool {
    &&& mid.len() == fs.len()
    &&& inl.len() == fs.len()
    &&& out.len() == fs.len()
    &&& forall|k: int| 0 <= k < fs.len() ==> optimized_as(#[trigger] mid[k], fs[k])
    &&& forall|k: int| 0 <= k < fs.len() ==> inlined_as(#[trigger] inl[k], mid[k], mid)
    &&& forall|k: int| 0 <= k < fs.len() ==> optimized_as(#[trigger] out[k], inl[k])
}

/// Runs the whole optimizer: folding and truncation on every function,
/// inlining across the module, then folding and truncation once more.
pub fn optimize_module(module: &IRModule) -> (r: IRModule)
    ensures
        r.functions@.len() == module.functions@.len(),
        exists|mid: Seq<IRFunction>, inl: Seq<IRFunction>|
            #[trigger] optimizer_stages(module.functions@, mid, inl, r.functions@),
{
    let mut m = IRModule { functions: optimize_each(&module.functions) };
    let ghost mid = m.functions@;
    inline_small_functions(&mut m);
    let ghost inl = m.functions@;
    let r = IRModule { functions: optimize_each(&m.functions) };
    assert(optimizer_stages(module.functions@, mid, inl, r.functions@));
    r
}

/// The imports that instruction `i` calls directly, by name: the target of
/// a `CallStd`, `CallAI`, `CallWeb3` or `CallFS`, and `panic` for `Panic`.
pub open spec fn import_of(i: IRInstr) -> Seq<Seq<char>> {
    match i {
        IRInstr::CallStd(n) => seq![n@],
        IRInstr::CallAI(n) => seq![n@],
        IRInstr::CallWeb3(n) => seq![n@],
        IRInstr::CallFS(n) => seq![n@],
        IRInstr::Panic => seq!["panic"@],
        _ => seq![],
    }
}

/// The imports called by `s`, in instruction order.
pub open spec fn imports_in(s: Seq<IRInstr>) -> Seq<Seq<char>>
    decreases s.len(),
{
    if s.len() == 0 {
        seq![]
    } else {
        imports_in(s.drop_last()) + import_of(s.last())
    }
}

/// The imports that the first `m` instructions of `s` call when every call
/// that inlining replaces runs its callee instead.
pub open spec fn imports_through_calls(s: Seq<IRInstr>, fs: Seq<IRFunction>, lc0: int, m: int) -> Seq<Seq<char>>
    decreases m,
    when 0 <= m <= s.len()
{
    if m == 0 {
        seq![]
    } else {
        let lc = inline_upto(s, fs, lc0, m - 1).1;
        imports_through_calls(s, fs, lc0, m - 1) + match inline_target(fs, s[m - 1], lc) {
            Some(c) => imports_in(fs[c].instructions@),
            None => import_of(s[m - 1]),
        }
    }
}

proof fn lemma_imports_concat(a: Seq<IRInstr>, b: Seq<IRInstr>)
    ensures
        imports_in(a + b) == imports_in(a) + imports_in(b),
    decreases b.len(),
{
    if b.len() == 0 {
        assert(a + b =~= a);
        assert(imports_in(b) =~= seq![]);
        assert(imports_in(a) + imports_in(b) =~= imports_in(a));
    } else {
        lemma_imports_concat(a, b.drop_last());
        assert((a + b).drop_last() =~= a + b.drop_last());
        assert(imports_in(a) + imports_in(b) =~= imports_in(a) + imports_in(b.drop_last()) + import_of(
            b.last(),
        ));
    }
}

proof fn lemma_imports_stores(base: int, n: int, j: int)
    requires
        0 <= j <= n,
    ensures
        imports_in(arg_stores(base, n).subrange(0, j)) =~= seq![],
    decreases j,
{
    if j > 0 {
        lemma_imports_stores(base, n, j - 1);
        assert(arg_stores(base, n).subrange(0, j).drop_last() =~= arg_stores(base, n).subrange(0, j - 1));
    }
}

proof fn lemma_imports_shifted(body: Seq<IRInstr>, base: int)
    ensures
        imports_in(body.map_values(|i: IRInstr| shift_slot(i, base))) == imports_in(body),
    decreases body.len(),
{
    if body.len() > 0 {
        lemma_imports_shifted(body.drop_last(), base);
        assert(body.map_values(|i: IRInstr| shift_slot(i, base)).drop_last() =~= body.drop_last().map_values(
            |i: IRInstr| shift_slot(i, base),
        ));
    }
}

proof fn lemma_inline_imports(s: Seq<IRInstr>, fs: Seq<IRFunction>, lc0: int, m: int)
    requires
        0 <= m <= s.len(),
    ensures
        imports_in(inline_upto(s, fs, lc0, m).0) == imports_through_calls(s, fs, lc0, m),
    decreases m,
{
    if m > 0 {
        lemma_inline_imports(s, fs, lc0, m - 1);
        let (prev, lc) = inline_upto(s, fs, lc0, m - 1);
        match inline_target(fs, s[m - 1], lc) {
            Some(c) => {
                lemma_candidate_in(fs, fs.len() as int, s[m - 1]->Call_0@);
                let body = fs[c].instructions@;
                let n = fs[c].param_count as int;
                lemma_imports_concat(prev, arg_stores(lc, n));
                lemma_imports_concat(prev + arg_stores(lc, n), spliced_body(body, lc));
                lemma_imports_stores(lc, n, n);
                assert(arg_stores(lc, n).subrange(0, n) =~= arg_stores(lc, n));
                lemma_imports_shifted(body.drop_last(), lc);
                assert(body.drop_last().push(body.last()) =~= body);
                assert(imports_in(body) =~= imports_in(body.drop_last()));
                assert(imports_in(prev) + imports_in(arg_stores(lc, n)) =~= imports_in(prev));
            },
            None => {
                let x = retarget(s[m - 1], s, fs, lc0);
                assert(import_of(x) == import_of(s[m - 1]));
                assert(prev.push(x).drop_last() =~= prev);
            },
        }
    }
}

/// Inlining keeps the calls to imports: the inlined function calls the same
/// imports, in the same order, as the function before inlining when each replaced call runs
/// its callee's body.
pub proof fn inlining_keeps_imports(f: IRFunction, fs: Seq<IRFunction>)
    ensures
        imports_in(
            inline_upto(f.instructions@, fs, f.local_count as int, f.instructions@.len() as int).0,
        ) == imports_through_calls(
            f.instructions@,
            fs,
            f.local_count as int,
            f.instructions@.len() as int,
        ),
{
    lemma_inline_imports(f.instructions@, fs, f.local_count as int, f.instructions@.len() as int);
}

proof fn lemma_inline_slots(s: Seq<IRInstr>, fs: Seq<IRFunction>, lc0: int, m: int)
    requires
        0 <= m <= s.len(),
        0 <= lc0,
        slots_below(s, lc0),
    ensures
        slots_below(inline_upto(s, fs, lc0, m).0, inline_upto(s, fs, lc0, m).1),
        inline_upto(s, fs, lc0, m).1 >= lc0,
    decreases m,
{
    if m > 0 {
        lemma_inline_slots(s, fs, lc0, m - 1);
        let (prev, lc) = inline_upto(s, fs, lc0, m - 1);
        match inline_target(fs, s[m - 1], lc) {
            Some(c) => {
                lemma_candidate_in(fs, fs.len() as int, s[m - 1]->Call_0@);
                let body = fs[c].instructions@;
                let n = fs[c].param_count as int;
                let lcn = lc + fs[c].local_count;
                let out = prev + arg_stores(lc, n) + spliced_body(body, lc);
                assert forall|k: int| 0 <= k < out.len() implies match #[trigger] out[k] {
                    IRInstr::LoadLocal(x) => x < lcn,
                    IRInstr::StoreLocal(x) => x < lcn,
                    _ => true,
                } by {
                    if k >= prev.len() + n {
                        let b = k - prev.len() - n;
                        assert(out[k] == shift_slot(body[b], lc));
                        assert(match body[b] {
                            IRInstr::LoadLocal(x) => x < fs[c].local_count,
                            IRInstr::StoreLocal(x) => x < fs[c].local_count,
                            _ => true,
                        });
                        assert(lc + fs[c].local_count <= u32::MAX);
                        assert(body.drop_last()[b] == body[b]);
                    } else if k < prev.len() {
                        assert(out[k] == prev[k]);
                    } else {
                        let j = k - prev.len();
                        assert(out[k] == arg_stores(lc, n)[j]);
                        assert(fs[c].param_count <= fs[c].local_count);
                        assert(lc + fs[c].local_count <= u32::MAX);
                        assert(out[k] == IRInstr::StoreLocal((lc + n - 1 - j) as u32));
                    }
                }
            },
            None => {
                let out = prev.push(retarget(s[m - 1], s, fs, lc0));
                assert forall|k: int| 0 <= k < out.len() implies match #[trigger] out[k] {
                    IRInstr::LoadLocal(x) => x < lc,
                    IRInstr::StoreLocal(x) => x < lc,
                    _ => true,
                } by {
                    if k < prev.len() {
                        assert(out[k] == prev[k]);
                    } else {
                        assert(out[k] == retarget(s[m - 1], s, fs, lc0));
                        assert(match s[m - 1] {
                            IRInstr::LoadLocal(x) => x < lc0,
                            IRInstr::StoreLocal(x) => x < lc0,
                            _ => true,
                        });
                    }
                }
            },
        }
    }
}

/// Inlining keeps every slot below the local count and keeps a final
/// `Return` in place.
pub proof fn inlining_keeps_slots_and_return(f: IRFunction, fs: Seq<IRFunction>)
    requires
        slots_below(f.instructions@, f.local_count as int),
    ensures
        slots_below(
            inline_upto(f.instructions@, fs, f.local_count as int, f.instructions@.len() as int).0,
            inline_upto(f.instructions@, fs, f.local_count as int, f.instructions@.len() as int).1,
        ),
        inline_upto(f.instructions@, fs, f.local_count as int, f.instructions@.len() as int).1
            >= f.local_count,
        ends_with_return(f.instructions@) ==> ends_with_return(
            inline_upto(f.instructions@, fs, f.local_count as int, f.instructions@.len() as int).0,
        ),
{
    lemma_inline_slots(f.instructions@, fs, f.local_count as int, f.instructions@.len() as int);
}

proof fn lemma_fold_keeps(s: Seq<IRInstr>, i: int, n: int)
    requires
        0 <= i <= s.len(),
        slots_below(s, n),
    ensures
        slots_below(fold_from(s, i), n),
        ends_with_return(s) ==> ends_with_return(fold_from(s, i)),
        ends_with_exit(s) ==> ends_with_exit(fold_from(s, i)),
        targets_in_range(s) ==> targets_in_range(fold_from(s, i)),
    decreases 2 * s.len() - i,
{
    if i + 2 < s.len() {
        match fold_window(s[i], s[i + 1], s[i + 2]) {
            Some(v) => {
                if lands_inside(s, i) {
                    lemma_fold_keeps(s, i + 1, n);
                } else {
                    let u = s.subrange(0, i) + seq![IRInstr::LoadConstInt(v)] + s.subrange(i + 3, s.len() as int);
                    let t = fold_at(s, i, v);
                    assert forall|k: int| 0 <= k < t.len() implies match #[trigger] t[k] {
                        IRInstr::LoadLocal(x) => x < n,
                        IRInstr::StoreLocal(x) => x < n,
                        _ => true,
                    } by {
                        assert(t[k] == shift_back(u[k], i));
                        if k < i {
                            assert(u[k] == s[k]);
                        } else if k > i {
                            assert(u[k] == s[k + 2]);
                        }
                    }
                    if ends_with_exit(s) {
                        assert(!is_exit(s[i + 2]));
                        assert(i + 3 < s.len());
                        assert(u.last() == s.last());
                        assert(t.last() == shift_back(u.last(), i));
                    }
                    if targets_in_range(s) {
                        assert forall|k: int| 0 <= k < t.len() implies match #[trigger] t[k] {
                            IRInstr::Jump(x) => x <= t.len(),
                            IRInstr::JumpIfFalse(x) => x <= t.len(),
                            _ => true,
                        } by {
                            assert(t[k] == shift_back(u[k], i));
                            let j = if k < i { k } else if k > i { k + 2 } else { i };
                            if k != i {
                                assert(u[k] == s[j]);
                                assert(!(target_of(s[j]) == Some(i + 1) || target_of(s[j]) == Some(i + 2)));
                            }
                        }
                    }
                    lemma_fold_keeps(t, if i > 0 { i - 1 } else { 0 }, n);
                }
            },
            None => {
                lemma_fold_keeps(s, i + 1, n);
            },
        }
    }
}

proof fn lemma_optimized_slots(g: IRFunction, f: IRFunction)
    requires
        optimized_as(g, f),
        slots_below(f.instructions@, f.local_count as int),
    ensures
        slots_below(g.instructions@, g.local_count as int),
{
    let s = f.instructions@;
    lemma_fold_keeps(s, 0, f.local_count as int);
    let t = folded(s);
    lemma_cut_point(t);
    if cut_point(t) < t.len() {
        assert forall|k: int| 0 <= k < truncated(t).len() implies match #[trigger] truncated(t)[k] {
            IRInstr::LoadLocal(x) => x < f.local_count,
            IRInstr::StoreLocal(x) => x < f.local_count,
            _ => true,
        } by {
            assert(truncated(t)[k] == t[k]);
        }
    }
}

/// The whole optimizer keeps every local slot below its function's local
/// count: folding and truncation only drop or replace instructions, and
/// inlining moves a callee's slots into fresh locals of the caller.
pub proof fn optimizer_keeps_slots(
    fs: Seq<IRFunction>,
    mid: Seq<IRFunction>,
    inl: Seq<IRFunction>,
    out: Seq<IRFunction>,
)
    requires
        optimizer_stages(fs, mid, inl, out),
        forall|k: int| 0 <= k < fs.len() ==> slots_below(#[trigger] fs[k].instructions@, fs[k].local_count as int),
    ensures
        forall|k: int| 0 <= k < out.len() ==> slots_below(#[trigger] out[k].instructions@, out[k].local_count as int),
{
    assert forall|k: int| 0 <= k < out.len() implies slots_below(#[trigger] out[k].instructions@, out[k].local_count as int) by {
        assert(optimized_as(mid[k], fs[k]));
        lemma_optimized_slots(mid[k], fs[k]);
        assert(inlined_as(inl[k], mid[k], mid));
        inlining_keeps_slots_and_return(mid[k], mid);
        assert(optimized_as(out[k], inl[k]));
        lemma_optimized_slots(out[k], inl[k]);
    }
}

/// Folding keeps a final `Return` in place, every slot below the same
/// bound, and every jump target inside the function.
pub proof fn folding_keeps_return_slots_and_targets(s: Seq<IRInstr>, n: int)
    requires
        slots_below(s, n),
    ensures
        slots_below(folded(s), n),
        ends_with_return(s) ==> ends_with_return(folded(s)),
        targets_in_range(s) ==> targets_in_range(folded(s)),
{
    lemma_fold_keeps(s, 0, n);
}

/// The last instruction of `s` is `Return` or `Panic`.
pub open spec fn ends_with_exit(s: Seq<IRInstr>) -> bool {
    s.len() > 0 && is_exit(s.last())
}

proof fn lemma_truncated_exit(s: Seq<IRInstr>)
    requires
        ends_with_exit(s),
    ensures
        ends_with_exit(truncated(s)),
{
    lemma_cut_point(s);
    if cut_point(s) >= s.len() {
        assert(is_exit(s[s.len() - 1]));
    }
}

proof fn lemma_optimized_exit(g: IRFunction, f: IRFunction)
    requires
        optimized_as(g, f),
        ends_with_exit(f.instructions@),
    ensures
        ends_with_exit(g.instructions@),
{
    lemma_fold_keeps(f.instructions@, 0, 0x1_0000_0000_0000_0000);
    lemma_truncated_exit(folded(f.instructions@));
}

/// Every function that ends with `Return` before optimization ends with
/// `Return` or `Panic` after it: truncation may end a function at an early
/// `panic`, and no pass leaves a function without a final exit.
pub proof fn optimizer_keeps_final_exit(
    fs: Seq<IRFunction>,
    mid: Seq<IRFunction>,
    inl: Seq<IRFunction>,
    out: Seq<IRFunction>,
)
    requires
        optimizer_stages(fs, mid, inl, out),
        forall|k: int| 0 <= k < fs.len() ==> ends_with_return(#[trigger] fs[k].instructions@),
    ensures
        forall|k: int| 0 <= k < out.len() ==> ends_with_exit(#[trigger] out[k].instructions@),
{
    assert forall|k: int| 0 <= k < out.len() implies ends_with_exit(#[trigger] out[k].instructions@) by {
        assert(optimized_as(mid[k], fs[k]));
        lemma_optimized_exit(mid[k], fs[k]);
        assert(inlined_as(inl[k], mid[k], mid));
        let s = mid[k].instructions@;
        let m = s.len() as int;
        let prev = inline_upto(s, mid, mid[k].local_count as int, m - 1);
        assert(inline_target(mid, s[m - 1], prev.1) is None);
        if inline_len(s, mid, mid[k].local_count as int, m).0 <= usize::MAX {
            assert(inl[k].instructions@ == prev.0.push(retarget(s[m - 1], s, mid, mid[k].local_count as int)));
            assert(retarget(s[m - 1], s, mid, mid[k].local_count as int) == s[m - 1]);
        }
        assert(optimized_as(out[k], inl[k]));
        lemma_optimized_exit(out[k], inl[k]);
    }
}

proof fn lemma_inline_targets(s: Seq<IRInstr>, fs: Seq<IRFunction>, lc0: int, m: int)
    requires
        0 <= m <= s.len(),
        targets_in_range(s),
        inline_len(s, fs, lc0, s.len() as int).0 <= usize::MAX,
    ensures
        forall|k: int|
            0 <= k < inline_upto(s, fs, lc0, m).0.len() ==> match #[trigger] inline_upto(s, fs, lc0, m).0[k] {
                IRInstr::Jump(t) => t <= inline_len(s, fs, lc0, s.len() as int).0,
                IRInstr::JumpIfFalse(t) => t <= inline_len(s, fs, lc0, s.len() as int).0,
                _ => true,
            },
    decreases m,
{
    let end = inline_len(s, fs, lc0, s.len() as int).0;
    if m > 0 {
        lemma_inline_targets(s, fs, lc0, m - 1);
        let (prev, lc) = inline_upto(s, fs, lc0, m - 1);
        let out = inline_upto(s, fs, lc0, m).0;
        match inline_target(fs, s[m - 1], lc) {
            Some(c) => {
                lemma_candidate_in(fs, fs.len() as int, s[m - 1]->Call_0@);
                let body = fs[c].instructions@;
                let n = fs[c].param_count as int;
                assert forall|k: int| 0 <= k < out.len() implies match #[trigger] out[k] {
                    IRInstr::Jump(t) => t <= end,
                    IRInstr::JumpIfFalse(t) => t <= end,
                    _ => true,
                } by {
                    if k < prev.len() {
                        assert(out[k] == prev[k]);
                    } else if k >= prev.len() + n {
                        let b = k - prev.len() - n;
                        assert(out[k] == shift_slot(body[b], lc));
                        assert(!(body[b] is Jump) && !(body[b] is JumpIfFalse));
                    } else {
                        assert(out[k] == arg_stores(lc, n)[k - prev.len()]);
                    }
                }
            },
            None => {
                let x = s[m - 1];
                assert(match x {
                    IRInstr::Jump(t) => t <= s.len(),
                    IRInstr::JumpIfFalse(t) => t <= s.len(),
                    _ => true,
                });
                match x {
                    IRInstr::Jump(t) => {
                        lemma_inline_len_mono(s, fs, lc0, t as int, s.len() as int);
                        lemma_inline_len_mono(s, fs, lc0, 0, t as int);
                    },
                    IRInstr::JumpIfFalse(t) => {
                        lemma_inline_len_mono(s, fs, lc0, t as int, s.len() as int);
                        lemma_inline_len_mono(s, fs, lc0, 0, t as int);
                    },
                    _ => {},
                }
                assert forall|k: int| 0 <= k < out.len() implies match #[trigger] out[k] {
                    IRInstr::Jump(t) => t <= end,
                    IRInstr::JumpIfFalse(t) => t <= end,
                    _ => true,
                } by {
                    if k < prev.len() {
                        assert(out[k] == prev[k]);
                    } else {
                        assert(out[k] == retarget(x, s, fs, lc0));
                    }
                }
            },
        }
    }
}

/// Inlining keeps every jump target inside the function: jumps follow the
/// instructions they designate.
pub proof fn inlining_keeps_targets(g: IRFunction, f: IRFunction, fs: Seq<IRFunction>)
    requires
        inlined_as(g, f, fs),
        targets_in_range(f.instructions@),
    ensures
        targets_in_range(g.instructions@),
{
    let s = f.instructions@;
    let lc0 = f.local_count as int;
    if inline_len(s, fs, lc0, s.len() as int).0 <= usize::MAX {
        lemma_inline_targets(s, fs, lc0, s.len() as int);
        lemma_inline_len(s, fs, lc0, s.len() as int);
    }
}

proof fn lemma_optimized_targets(g: IRFunction, f: IRFunction)
    requires
        optimized_as(g, f),
        targets_in_range(f.instructions@),
    ensures
        targets_in_range(g.instructions@),
{
    lemma_fold_keeps(f.instructions@, 0, 0x1_0000_0000_0000_0000);
    truncation_keeps_targets(folded(f.instructions@));
}

/// The whole optimizer keeps every jump target inside its function.
pub proof fn optimizer_keeps_targets(
    fs: Seq<IRFunction>,
    mid: Seq<IRFunction>,
    inl: Seq<IRFunction>,
    out: Seq<IRFunction>,
)
    requires
        optimizer_stages(fs, mid, inl, out),
        forall|k: int| 0 <= k < fs.len() ==> targets_in_range(#[trigger] fs[k].instructions@),
    ensures
        forall|k: int| 0 <= k < out.len() ==> targets_in_range(#[trigger] out[k].instructions@),
{
    assert forall|k: int| 0 <= k < out.len() implies targets_in_range(#[trigger] out[k].instructions@) by {
        assert(optimized_as(mid[k], fs[k]));
        lemma_optimized_targets(mid[k], fs[k]);
        assert(inlined_as(inl[k], mid[k], mid));
        inlining_keeps_targets(inl[k], mid[k], mid);
        assert(optimized_as(out[k], inl[k]));
        lemma_optimized_targets(out[k], inl[k]);
    }
}

} // verus!
