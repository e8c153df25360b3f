//! Source text to a jump-resolved instruction sequence.
use vstd::prelude::*;
use vstd::std_specs::iter::IteratorSpec;

use crate::errors::{CompileError, CompileErrorKind, MyError};

verus! {

/// One instruction. The four counted kinds carry their run length; the two
/// jumps carry the index of their partner in the same sequence.
#[derive(Clone, Copy, Debug, PartialEq, Eq, Structural)]
pub enum Token {
    PtrIncrease(u32),
    PtrDecrease(u32),
    DataIncrease(u32),
    DataDecrease(u32),
    JumpForward(u32),
    JumpBack(u32),
    Output,
    Input,
}

/// One of the four characters whose runs fold into one counted instruction.
pub open spec fn is_counted_op(c: char) -> bool {
    c == '>' || c == '<' || c == '+' || c == '-'
}

/// The counted instruction that a run of `n` characters `c` folds into.
pub open spec fn op_token(c: char, n: u32) -> Token {
    if c == '>' {
        Token::PtrIncrease(n)
    } else if c == '<' {
        Token::PtrDecrease(n)
    } else if c == '+' {
        Token::DataIncrease(n)
    } else {
        Token::DataDecrease(n)
    }
}

/// The run length of `t`, where `t` is the counted instruction of `c`.
pub open spec fn run_of(t: Token, c: char) -> Option<u32> {
    match t {
        Token::PtrIncrease(n) => if c == '>' { Some(n) } else { None },
        Token::PtrDecrease(n) => if c == '<' { Some(n) } else { None },
        Token::DataIncrease(n) => if c == '+' { Some(n) } else { None },
        Token::DataDecrease(n) => if c == '-' { Some(n) } else { None },
        _ => None,
    }
}

/// The run length of a counted instruction; zero for the others.
pub open spec fn count_of(t: Token) -> int {
    match t {
        Token::PtrIncrease(n) => n as int,
        Token::PtrDecrease(n) => n as int,
        Token::DataIncrease(n) => n as int,
        Token::DataDecrease(n) => n as int,
        _ => 0,
    }
}

/// `tokens` after one more counted character `c`: the last instruction's run
/// grows when it is of the same kind, else a run of one starts.
pub open spec fn fold_op(tokens: Seq<Token>, c: char) -> Seq<Token> {
    if tokens.len() > 0 && run_of(tokens.last(), c) is Some {
        tokens.update(tokens.len() - 1, op_token(c, (run_of(tokens.last(), c)->0 + 1) as u32))
    } else {
        tokens.push(op_token(c, 1))
    }
}

/// Where a left-to-right scan of the source stands.
pub struct ScanState {
    /// Instructions emitted so far; open jumps still point at index 0.
    pub tokens: Seq<Token>,
    /// Indices of the open jumps not yet closed, innermost last.
    pub stack: Seq<int>,
    pub line: int,
    pub col: int,
    /// The first unmatched closing bracket, once met.
    pub error: Option<CompileError>,
}

pub open spec fn scan_start() -> ScanState {
    ScanState { tokens: seq![], stack: seq![], line: 1, col: 0, error: None }
}

/// The scan after one more character.
pub open spec fn scan_char(st: ScanState, c: char) -> ScanState {
    let col = st.col + 1;
    if st.error is Some {
        st
    } else if c == '\n' {
        ScanState { line: st.line + 1, col: 0, ..st }
    } else if is_counted_op(c) {
        ScanState { tokens: fold_op(st.tokens, c), col, ..st }
    } else if c == '.' {
        ScanState { tokens: st.tokens.push(Token::Output), col, ..st }
    } else if c == ',' {
        ScanState { tokens: st.tokens.push(Token::Input), col, ..st }
    } else if c == '[' {
        ScanState {
            tokens: st.tokens.push(Token::JumpForward(0)),
            stack: st.stack.push(st.tokens.len() as int),
            col,
            ..st
        }
    } else if c == ']' {
        if st.stack.len() == 0 {
            ScanState {
                col,
                error: Some(
                    CompileError {
                        line: st.line as u32,
                        col: col as u32,
                        kind: CompileErrorKind::UnexpectedRightBracket,
                    },
                ),
                ..st
            }
        } else {
            let open = st.stack.last();
            let close = st.tokens.len() as int;
            ScanState {
                tokens: st.tokens.update(open, Token::JumpForward(close as u32)).push(
                    Token::JumpBack(open as u32),
                ),
                stack: st.stack.drop_last(),
                col,
                ..st
            }
        }
    } else {
        ScanState { col, ..st }
    }
}

/// The scan after all of `s`.
pub open spec fn scan(s: Seq<char>) -> ScanState
    decreases s.len(),
{
    if s.len() == 0 {
        scan_start()
    } else {
        scan_char(scan(s.drop_last()), s.last())
    }
}

/// The instructions of source `s`, or its first structural error: an
/// unmatched closing bracket where it stands, else an unclosed opening
/// bracket at the last position reached.
pub open spec fn compile(s: Seq<char>) -> Result<Seq<Token>, CompileError> {
    let st = scan(s);
    if st.error is Some {
        Err(st.error->0)
    } else if st.stack.len() > 0 {
        Err(
            CompileError {
                line: st.line as u32,
                col: st.col as u32,
                kind: CompileErrorKind::UnclosedLeftBracket,
            },
        )
    } else {
        Ok(st.tokens)
    }
}

/// What a scan of a prefix of length `i` keeps within bounds.
pub open spec fn scan_bounded(st: ScanState, i: int) -> bool {
    &&& st.tokens.len() <= i
    &&& 1 <= st.line <= i + 1
    &&& 0 <= st.col <= i
    &&& forall|k: int| 0 <= k < st.tokens.len() ==> count_of(#[trigger] st.tokens[k]) <= i
    &&& forall|k: int| 0 <= k < st.stack.len() ==> 0 <= #[trigger] st.stack[k] < st.tokens.len()
}

proof fn lemma_scan_bounded(s: Seq<char>)
    ensures
        scan_bounded(scan(s), s.len() as int),
    decreases s.len(),
{
    if s.len() > 0 {
        lemma_scan_bounded(s.drop_last());
        let st = scan(s.drop_last());
        let c = s.last();
        if st.error is None && is_counted_op(c) {
            let t = fold_op(st.tokens, c);
            assert forall|k: int| 0 <= k < t.len() implies count_of(#[trigger] t[k]) <= s.len() by {
                if k < st.tokens.len() {
                    assert(count_of(st.tokens[k]) <= s.len() - 1);
                }
            }
        }
    }
}

/// Once the scan has met an error, the rest of the source changes nothing.
proof fn lemma_error_persists(s: Seq<char>, i: int, j: int)
    requires
        0 <= i <= j <= s.len(),
        scan(s.take(i)).error is Some,
    ensures
        scan(s.take(j)) == scan(s.take(i)),
    decreases j - i,
{
    if j > i {
        lemma_error_persists(s, i, j - 1);
        assert(s.take(j).drop_last() =~= s.take(j - 1));
    }
}

/// The exec stack of open jumps, read as the scan's stack.
pub open spec fn stack_view(stack: Seq<usize>) -> Seq<int> {
    stack.map_values(|x: usize| x as int)
}

/// Compiles source text into instructions: runs of `>`, `<`, `+`, `-` fold
/// into one counted instruction, `.` and `,` give one instruction each, the
/// brackets give jumps that point at each other, and all other characters
/// are ignored. Fails at the first closing bracket with no opening one, or
/// at the end when an opening bracket stays unclosed.
pub fn raw_code_to_token_vec(raw_code: &str) -> (r: Result<Vec<Token>, MyError>)
    requires
        raw_code@.len() < u32::MAX,
    ensures
        match compile(raw_code@) {
            Ok(t) => (r matches Ok(v) && v@ == t),
            Err(e) => r == Err::<Vec<Token>, MyError>(MyError::Compile(e)),
        },
{
    let ghost s = raw_code@;
    let mut vec: Vec<Token> = Vec::new();
    let mut stack: Vec<usize> = Vec::new();
    let mut line: u32 = 1;
    let mut col: u32 = 0;
    let mut chars = raw_code.chars();
    let ghost mut i: int = 0;
    proof {
        assert(s.take(0) =~= seq![]);
        assert(stack_view(stack@) =~= seq![]);
    }
    loop
        invariant
            s == raw_code@,
            0 <= i <= s.len(),
            s.len() < u32::MAX,
            chars.remaining() == s.skip(i),
            scan(s.take(i)).error is None,
            scan(s.take(i)).tokens == vec@,
            scan(s.take(i)).stack == stack_view(stack@),
            scan(s.take(i)).line == line as int,
            scan(s.take(i)).col == col as int,
        ensures
            i == s.len(),
            scan(s.take(i)).error is None,
            scan(s.take(i)).tokens == vec@,
            scan(s.take(i)).stack == stack_view(stack@),
            scan(s.take(i)).line == line as int,
            scan(s.take(i)).col == col as int,
        decreases s.len() - i,
    {
        proof {
            lemma_scan_bounded(s.take(i));
        }
        let next = chars.next();
        let c = match next {
            None => {
                assert(s.skip(i).len() == 0);
                break;
            },
            Some(c) => c,
        };
        let ghost st = scan(s.take(i));
        proof {
            assert(i < s.len());
            assert(c == s[i]);
            assert(s.take(i + 1).drop_last() =~= s.take(i));
            assert(s.skip(i).drop_first() =~= s.skip(i + 1));
        }
        col = col + 1;
        if c == '\n' {
            line = line + 1;
            col = 0;
        } else if c == '>' || c == '<' || c == '+' || c == '-' {
            proof {
                if vec@.len() > 0 {
                    assert(count_of(st.tokens[st.tokens.len() - 1]) <= i);
                }
            }
            push_op(&mut vec, c);
        } else if c == '.' {
            vec.push(Token::Output);
        } else if c == ',' {
            vec.push(Token::Input);
        } else if c == '[' {
            vec.push(Token::JumpForward(0));
            stack.push(vec.len() - 1);
            proof {
                assert(stack_view(stack@) =~= st.stack.push(st.tokens.len() as int));
            }
        } else if c == ']' {
            match stack.pop() {
                Some(start) => {
                    proof {
                        assert(stack_view(stack@) =~= st.stack.drop_last());
                        assert(st.stack[st.stack.len() - 1] == start as int);
                    }
                    let close = vec.len();
                    vec.set(start, Token::JumpForward(close as u32));
                    vec.push(Token::JumpBack(start as u32));
                },
                None => {
                    proof {
                        assert(scan(s.take(i + 1)) == scan_char(st, c));
                        assert(scan(s.take(i + 1)).error == Some(
                            CompileError { line, col, kind: CompileErrorKind::UnexpectedRightBracket },
                        ));
                        lemma_error_persists(s, i + 1, s.len() as int);
                        assert(s.take(s.len() as int) =~= s);
                    }
                    let r: Result<Vec<Token>, MyError> = Err(
                        MyError::Compile(
                            CompileError { line, col, kind: CompileErrorKind::UnexpectedRightBracket },
                        ),
                    );
                    return r;
                },
            }
        }
        proof {
            i = i + 1;
        }
    }
    proof {
        assert(s.take(i) =~= s);
    }
    if stack.len() > 0 {
        return Err(
            MyError::Compile(
                CompileError { line, col, kind: CompileErrorKind::UnclosedLeftBracket },
            ),
        );
    }
    Ok(vec)
}

/// Appends the counted instruction of `c`, or lengthens the last one's run.
fn push_op(tokens: &mut Vec<Token>, c: char)
    requires
        is_counted_op(c),
        old(tokens)@.len() > 0 ==> count_of(old(tokens)@.last()) < u32::MAX,
    ensures
        final(tokens)@ == fold_op(old(tokens)@, c),
{
    let l = tokens.len();
    if l > 0 {
        let last = tokens[l - 1];
        let run: Option<u32> = match last {
            Token::PtrIncrease(n) => if c == '>' { Some(n) } else { None },
            Token::PtrDecrease(n) => if c == '<' { Some(n) } else { None },
            Token::DataIncrease(n) => if c == '+' { Some(n) } else { None },
            Token::DataDecrease(n) => if c == '-' { Some(n) } else { None },
            _ => None,
        };
        if let Some(n) = run {
            tokens.set(l - 1, new_op(c, n + 1));
            return;
        }
    }
    tokens.push(new_op(c, 1));
}

fn new_op(c: char, n: u32) -> (r: Token)
    ensures
        r == op_token(c, n),
{
    if c == '>' {
        Token::PtrIncrease(n)
    } else if c == '<' {
        Token::PtrDecrease(n)
    } else if c == '+' {
        Token::DataIncrease(n)
    } else {
        Token::DataDecrease(n)
    }
}

} // verus!

verus! {

/// The partner index of a jump instruction.
pub open spec fn jump_target(t: Token) -> int {
    match t {
        Token::JumpForward(j) => j as int,
        Token::JumpBack(j) => j as int,
        _ => 0,
    }
}

/// Every opening jump points at a later closing jump that points back at
/// it, every closing jump at an earlier opening jump that points back at
/// it, and the pairs nest: an opening jump inside a pair is closed inside it.
pub open spec fn jumps_matched(t: Seq<Token>) -> bool {
    &&& forall|i: int|
        0 <= i < t.len() && (#[trigger] t[i]) is JumpForward ==> i < jump_target(t[i]) < t.len()
            && t[jump_target(t[i])] == Token::JumpBack(i as u32)
    &&& forall|i: int|
        0 <= i < t.len() && (#[trigger] t[i]) is JumpBack ==> 0 <= jump_target(t[i]) < i
            && t[jump_target(t[i])] == Token::JumpForward(i as u32)
    &&& forall|a: int, p: int|
        0 <= a < t.len() && a < p < jump_target(t[a]) && (#[trigger] t[a]) is JumpForward
            && (#[trigger] t[p]) is JumpForward ==> jump_target(t[p]) < jump_target(t[a])
}

/// An opening jump still waiting for its partner.
pub open spec fn is_open(t: Token) -> bool {
    t == Token::JumpForward(0)
}

/// What the scan keeps of the jumps: closed pairs point at each other and
/// nest, open jumps lie inside no closed pair, and the stack holds exactly
/// the open jumps in increasing order.
pub open spec fn scan_jumps_ok(st: ScanState) -> bool {
    let t = st.tokens;
    &&& forall|i: int|
        0 <= i < t.len() && (#[trigger] t[i]) is JumpForward && !is_open(t[i]) ==> i < jump_target(
            t[i],
        ) < t.len() && t[jump_target(t[i])] == Token::JumpBack(i as u32)
    &&& forall|i: int|
        0 <= i < t.len() && (#[trigger] t[i]) is JumpBack ==> 0 <= jump_target(t[i]) < i
            && t[jump_target(t[i])] == Token::JumpForward(i as u32)
    &&& forall|a: int, p: int|
        0 <= a < p < t.len() && (#[trigger] t[a]) is JumpForward && !is_open(t[a]) && p
            < jump_target(t[a]) && (#[trigger] t[p]) is JumpForward ==> !is_open(t[p])
            && jump_target(t[p]) < jump_target(t[a])
    &&& forall|k: int|
        0 <= k < st.stack.len() ==> 0 <= #[trigger] st.stack[k] < t.len() && is_open(
            t[st.stack[k]],
        )
    &&& forall|k1: int, k2: int|
        0 <= k1 < k2 < st.stack.len() ==> #[trigger] st.stack[k1] < #[trigger] st.stack[k2]
    &&& forall|i: int| 0 <= i < t.len() && is_open(#[trigger] t[i]) ==> st.stack.contains(i)
}

proof fn lemma_fold_op_keeps_jumps(t: Seq<Token>, c: char)
    requires
        is_counted_op(c),
    ensures
        fold_op(t, c).len() >= t.len(),
        forall|i: int|
            0 <= i < t.len() && (t[i] is JumpForward || t[i] is JumpBack) ==> #[trigger] fold_op(
                t,
                c,
            )[i] == t[i],
        forall|i: int|
            0 <= i < fold_op(t, c).len() && !(0 <= i < t.len() && (t[i] is JumpForward
                || t[i] is JumpBack)) ==> !(#[trigger] fold_op(t, c)[i] is JumpForward) && !(fold_op(
                t,
                c,
            )[i] is JumpBack),
{
}

proof fn lemma_scan_jumps(s: Seq<char>)
    requires
        s.len() < u32::MAX,
    ensures
        scan(s).error is None ==> scan_jumps_ok(scan(s)),
    decreases s.len(),
{
    if s.len() > 0 {
        let s0 = s.drop_last();
        lemma_scan_jumps(s0);
        lemma_scan_bounded(s0);
        let st = scan(s0);
        let c = s.last();
        let t = st.tokens;
        let st2 = scan(s);
        let t2 = st2.tokens;
        if st.error is None {
            if is_counted_op(c) {
                lemma_fold_op_keeps_jumps(t, c);
                assert forall|i: int| 0 <= i < t2.len() && is_open(#[trigger] t2[i]) implies st2.stack.contains(i) by {
                    assert(t[i] == t2[i]);
                }
            } else if c == '[' {
                let n = t.len() as int;
                assert forall|i: int| 0 <= i < t2.len() && is_open(#[trigger] t2[i]) implies st2.stack.contains(i) by {
                    if i < n {
                        assert(t[i] == t2[i]);
                        let k = choose|k: int| 0 <= k < st.stack.len() && st.stack[k] == i;
                        assert(st2.stack[k] == i);
                    } else {
                        assert(st2.stack[st2.stack.len() - 1] == n);
                    }
                }
                assert forall|a: int, p: int|
                    0 <= a < p < t2.len() && (#[trigger] t2[a]) is JumpForward && !is_open(t2[a]) && p
                        < jump_target(t2[a]) && (#[trigger] t2[p]) is JumpForward implies !is_open(t2[p])
                        && jump_target(t2[p]) < jump_target(t2[a]) by {
                    assert(t2[a] == t[a]);
                    assert(jump_target(t[a]) < n);
                    assert(t2[p] == t[p]);
                }
            } else if c == ']' && st.stack.len() > 0 {
                let open = st.stack.last();
                let close = t.len() as int;
                assert(t2 == t.update(open, Token::JumpForward(close as u32)).push(Token::JumpBack(open as u32)));
                assert(is_open(t[open]));
                assert forall|k: int| 0 <= k < st.stack.len() - 1 implies #[trigger] st.stack[k] < open by {
                    assert(st.stack[k] < st.stack[st.stack.len() - 1]);
                }
                assert forall|i: int|
                    0 <= i < t2.len() && (#[trigger] t2[i]) is JumpForward && !is_open(t2[i]) implies i < jump_target(
                        t2[i],
                    ) < t2.len() && t2[jump_target(t2[i])] == Token::JumpBack(i as u32) by {
                    if i != open {
                        assert(t2[i] == t[i]);
                        let j = jump_target(t[i]);
                        assert(t[j] == Token::JumpBack(i as u32));
                        assert(j != open);
                        assert(t2[j] == t[j]);
                    }
                }
                assert forall|i: int|
                    0 <= i < t2.len() && (#[trigger] t2[i]) is JumpBack implies 0 <= jump_target(t2[i]) < i
                        && t2[jump_target(t2[i])] == Token::JumpForward(i as u32) by {
                    if i < close {
                        assert(t2[i] == t[i]);
                        let j = jump_target(t[i]);
                        assert(t[j] == Token::JumpForward(i as u32));
                        assert(j != open);
                    }
                }
                assert forall|a: int, p: int|
                    0 <= a < p < t2.len() && (#[trigger] t2[a]) is JumpForward && !is_open(t2[a]) && p
                        < jump_target(t2[a]) && (#[trigger] t2[p]) is JumpForward implies !is_open(t2[p])
                        && jump_target(t2[p]) < jump_target(t2[a]) by {
                    if a == open {
                        if p != open && p < close {
                            assert(t2[p] == t[p]);
                            if is_open(t[p]) {
                                assert(st.stack.contains(p));
                                let k = choose|k: int| 0 <= k < st.stack.len() && st.stack[k] == p;
                                if k < st.stack.len() - 1 {
                                    assert(st.stack[k] < open);
                                }
                            }
                            assert(jump_target(t[p]) < close);
                        }
                    } else {
                        assert(t2[a] == t[a]);
                        assert(jump_target(t[a]) < close);
                        if p == open {
                            assert(t[open] is JumpForward);
                        } else {
                            assert(t2[p] == t[p]);
                        }
                    }
                }
                assert forall|k: int|
                    0 <= k < st2.stack.len() implies 0 <= #[trigger] st2.stack[k] < t2.len() && is_open(
                        t2[st2.stack[k]],
                    ) by {
                    assert(st2.stack[k] == st.stack[k]);
                    assert(st.stack[k] < open);
                }
                assert forall|i: int| 0 <= i < t2.len() && is_open(#[trigger] t2[i]) implies st2.stack.contains(i) by {
                    assert(i != open);
                    assert(i != close);
                    assert(t2[i] == t[i]);
                    let k = choose|k: int| 0 <= k < st.stack.len() && st.stack[k] == i;
                    assert(k != st.stack.len() - 1);
                    assert(st2.stack[k] == i);
                }
            } else if c == '.' || c == ',' {
                assert forall|i: int| 0 <= i < t2.len() && is_open(#[trigger] t2[i]) implies st2.stack.contains(i) by {
                    assert(t[i] == t2[i]);
                }
            }
        }
    }
}

/// The jumps of every compiled program are matched pairs that nest.
pub proof fn lemma_jumps_matched(s: Seq<char>)
    requires
        s.len() < u32::MAX,
        compile(s) is Ok,
    ensures
        jumps_matched(compile(s)->Ok_0),
{
    lemma_scan_jumps(s);
    let st = scan(s);
    let t = st.tokens;
    assert forall|i: int| 0 <= i < t.len() implies !is_open(#[trigger] t[i]) by {
        if is_open(t[i]) {
            assert(st.stack.contains(i));
        }
    }
    assert forall|a: int, p: int|
        0 <= a < t.len() && a < p < jump_target(t[a]) && (#[trigger] t[a]) is JumpForward
            && (#[trigger] t[p]) is JumpForward implies jump_target(t[p]) < jump_target(t[a]) by {
        assert(!is_open(t[a]));
        assert(jump_target(t[a]) < t.len());
    }
}

} // verus!

verus! {

/// No two neighbouring instructions are counted instructions of the same
/// kind, and every counted instruction has a run of at least one.
pub open spec fn runs_folded(t: Seq<Token>) -> bool {
    &&& forall|k: int, c: char|
        0 <= k && k + 1 < t.len() && is_counted_op(c) && (#[trigger] run_of(t[k], c)) is Some
            ==> !(#[trigger] run_of(t[k + 1], c) is Some)
    &&& forall|k: int| 0 <= k < t.len() && #[trigger] count_of(t[k]) != 0 ==> count_of(t[k]) >= 1
}

proof fn lemma_run_of_op(c: char, n: u32)
    requires
        is_counted_op(c),
    ensures
        run_of(op_token(c, n), c) == Some(n),
        count_of(op_token(c, n)) == n,
        forall|d: char| d != c && is_counted_op(d) ==> #[trigger] run_of(op_token(c, n), d) is None,
{
}

proof fn lemma_scan_runs_folded(s: Seq<char>)
    ensures
        runs_folded(scan(s).tokens),
    decreases s.len(),
{
    if s.len() > 0 {
        let s0 = s.drop_last();
        lemma_scan_runs_folded(s0);
        lemma_scan_bounded(s0);
        let st = scan(s0);
        let c = s.last();
        let t = st.tokens;
        let t2 = scan(s).tokens;
        assert(scan(s) == scan_char(st, c));
        if st.error is None {
            if is_counted_op(c) {
                if t.len() > 0 && run_of(t.last(), c) is Some {
                    let n = run_of(t.last(), c)->0;
                    lemma_run_of_op(c, (n + 1) as u32);
                    assert forall|k: int, d: char|
                        0 <= k && k + 1 < t2.len() && is_counted_op(d) && (#[trigger] run_of(t2[k], d)) is Some
                            implies !(#[trigger] run_of(t2[k + 1], d) is Some) by {
                        if k + 1 == t.len() - 1 {
                            assert(t2[k] == t[k]);
                            if d == c {
                                assert(run_of(t[k + 1], c) is Some);
                            }
                        } else {
                            assert(t2[k] == t[k]);
                            assert(t2[k + 1] == t[k + 1]);
                        }
                    }
                    assert forall|k: int| 0 <= k < t2.len() && #[trigger] count_of(t2[k]) != 0 implies count_of(t2[k]) >= 1 by {
                        if k < t.len() - 1 {
                            assert(t2[k] == t[k]);
                        }
                    }
                } else {
                    lemma_run_of_op(c, 1);
                    assert forall|k: int, d: char|
                        0 <= k && k + 1 < t2.len() && is_counted_op(d) && (#[trigger] run_of(t2[k], d)) is Some
                            implies !(#[trigger] run_of(t2[k + 1], d) is Some) by {
                        assert(t2[k] == t[k]);
                        if k + 1 < t.len() {
                            assert(t2[k + 1] == t[k + 1]);
                        }
                    }
                    assert forall|k: int| 0 <= k < t2.len() && #[trigger] count_of(t2[k]) != 0 implies count_of(t2[k]) >= 1 by {
                        if k < t.len() {
                            assert(t2[k] == t[k]);
                        }
                    }
                }
            } else {
                assert forall|k: int, d: char|
                    0 <= k && k + 1 < t2.len() && is_counted_op(d) && (#[trigger] run_of(t2[k], d)) is Some
                        implies !(#[trigger] run_of(t2[k + 1], d) is Some) by {
                    if k + 1 < t.len() {
                        if c == ']' && st.stack.len() > 0 {
                            let open = st.stack.last();
                            if k != open && k + 1 != open {
                                assert(t2[k] == t[k]);
                                assert(t2[k + 1] == t[k + 1]);
                            }
                        } else {
                            assert(t2[k] == t[k]);
                            assert(t2[k + 1] == t[k + 1]);
                        }
                    }
                }
                assert forall|k: int| 0 <= k < t2.len() && #[trigger] count_of(t2[k]) != 0 implies count_of(t2[k]) >= 1 by {
                    if k < t.len() {
                        if c == ']' && st.stack.len() > 0 {
                            if k != st.stack.last() {
                                assert(t2[k] == t[k]);
                            }
                        } else {
                            assert(t2[k] == t[k]);
                        }
                    }
                }
            }
        }
    }
}

/// A compiled program never holds two neighbouring counted instructions of
/// one kind: each run of an operator, whatever comments stand inside it,
/// is one instruction.
pub proof fn lemma_runs_folded(s: Seq<char>)
    requires
        compile(s) is Ok,
    ensures
        runs_folded(compile(s)->Ok_0),
{
    lemma_scan_runs_folded(s);
}

/// `n` copies of the operator `c`.
pub open spec fn op_run(c: char, n: nat) -> Seq<char> {
    Seq::new(n, |i: int| c)
}

proof fn lemma_scan_op_run(c: char, n: nat)
    requires
        is_counted_op(c),
        1 <= n < u32::MAX,
    ensures
        scan(op_run(c, n)) == (ScanState {
            tokens: seq![op_token(c, n as u32)],
            stack: seq![],
            line: 1,
            col: n as int,
            error: None,
        }),
    decreases n,
{
    let s = op_run(c, n);
    assert(s.last() == c);
    assert(scan(s) == scan_char(scan(s.drop_last()), c));
    if n == 1 {
        assert(s.drop_last() =~= seq![]);
        assert(fold_op(seq![], c) =~= seq![op_token(c, 1)]);
    } else {
        assert(s.drop_last() =~= op_run(c, (n - 1) as nat));
        lemma_scan_op_run(c, (n - 1) as nat);
        lemma_run_of_op(c, (n - 1) as u32);
        assert(fold_op(seq![op_token(c, (n - 1) as u32)], c) =~= seq![op_token(c, n as u32)]);
    }
}

/// A run of `n` copies of one operator compiles to one instruction whose
/// count is `n`.
pub proof fn lemma_op_run_folds(c: char, n: nat)
    requires
        is_counted_op(c),
        1 <= n < u32::MAX,
    ensures
        compile(op_run(c, n)) == Ok::<Seq<Token>, CompileError>(seq![op_token(c, n as u32)]),
{
    lemma_scan_op_run(c, n);
}

} // verus!

verus! {

/// Opening brackets minus closing brackets in `s`.
pub open spec fn depth(s: Seq<char>) -> int
    decreases s.len(),
{
    if s.len() == 0 {
        0
    } else {
        depth(s.drop_last()) + if s.last() == '[' {
            1int
        } else if s.last() == ']' {
            -1int
        } else {
            0int
        }
    }
}

/// Some prefix of `s` closes more brackets than it opens.
pub open spec fn closes_too_many(s: Seq<char>) -> bool {
    exists|k: int| 0 < k <= s.len() && #[trigger] depth(s.take(k)) < 0
}

proof fn lemma_scan_depth(s: Seq<char>)
    ensures
        scan(s).error is Some <==> closes_too_many(s),
        scan(s).error is Some ==> scan(s).error->0.kind == CompileErrorKind::UnexpectedRightBracket,
        scan(s).error is None ==> scan(s).stack.len() == depth(s),
    decreases s.len(),
{
    if s.len() > 0 {
        let s0 = s.drop_last();
        lemma_scan_depth(s0);
        assert(s.take(s.len() as int) =~= s);
        assert forall|k: int| 0 < k <= s0.len() implies #[trigger] s0.take(k) == s.take(k) by {
            assert(s0.take(k) =~= s.take(k));
        }
        if closes_too_many(s0) {
            let k = choose|k: int| 0 < k <= s0.len() && #[trigger] depth(s0.take(k)) < 0;
            assert(depth(s.take(k)) < 0);
        }
        if closes_too_many(s) && !closes_too_many(s0) {
            let k = choose|k: int| 0 < k <= s.len() && #[trigger] depth(s.take(k)) < 0;
            if k < s.len() {
                assert(depth(s0.take(k)) < 0);
            }
        }
        if scan(s0).error is None && depth(s) < 0 {
            assert(depth(s.take(s.len() as int)) < 0);
        }
        assert(s.drop_last() == s0);
    }
}

/// A source compiles exactly when no prefix closes more brackets than it
/// opens and the whole opens as many as it closes; otherwise the error is
/// an unexpected closing bracket when some prefix closes too many, and an
/// unclosed opening bracket when none does.
pub proof fn lemma_compiles_iff_balanced(s: Seq<char>)
    ensures
        compile(s) is Ok <==> !closes_too_many(s) && depth(s) == 0,
        closes_too_many(s) ==> compile(s) is Err && compile(s)->Err_0.kind
            == CompileErrorKind::UnexpectedRightBracket,
        !closes_too_many(s) && depth(s) != 0 ==> compile(s) is Err && compile(s)->Err_0.kind
            == CompileErrorKind::UnclosedLeftBracket,
{
    lemma_scan_depth(s);
}

} // verus!
