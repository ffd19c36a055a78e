//! What the generator is told.

#[allow(unused_imports)]
use crate::clients::generator::{
    all_fenced, attribution, build_prompt, completion_text, fence_one, fenced, role_mark, sanitized,
    stream_piece, stripped_of_marks, swept, system_content, unmarked, without, GeneratorClient,
    Message, ACCEPTED_HEADING, CHITCHAT_PROMPT, CONFLICTING_HEADING, DEFUSED, FENCE,
    MEMORIES_FOLLOW, SYSTEM_PROMPT,
};
#[allow(unused_imports)]
use crate::json::{Json, JsonV, Num};
#[allow(unused_imports)]
use crate::laws::scoring::{holds, lemma_holds, size};
#[allow(unused_imports)]
use crate::laws::texts::{law_nothing_to_replace, law_replace, law_trim};
#[allow(unused_imports)]
use crate::laws::verdicts::law_has;
#[allow(unused_imports)]
use crate::score::Score;
#[allow(unused_imports)]
use crate::text::{decimal, has, occurs_at, replaced, white_space};
#[allow(unused_imports)]
use crate::types::{AdmittedCitations, Citation};
#[allow(unused_imports)]
use crate::when::day_of;
use vstd::prelude::*;

verus! {

/// A text in the middle of others can be told apart from what is before and after it.
proof fn lemma_regroup(
    head: Seq<char>,
    a: Seq<char>,
    x: Seq<char>,
    b: Seq<char>,
    tail: Seq<char>,
)
    ensures
        head + (a + x + b) + tail == (head + a) + x + (b + tail),
{
    assert(head + (a + x + b) + tail =~= (head + a) + x + (b + tail));
}

proof fn lemma_regroup_after(
    head: Seq<char>,
    a: Seq<char>,
    x: Seq<char>,
    b: Seq<char>,
    y: Seq<char>,
    c: Seq<char>,
    tail: Seq<char>,
)
    ensures
        head + (a + x + b + y + c) + tail == (head + a) + x + b + y + (c + tail),
{
    assert(head + (a + x + b + y + c) + tail =~= (head + a) + x + b + y + (c + tail));
}

proof fn lemma_regroup_apart(
    head: Seq<char>,
    a: Seq<char>,
    x: Seq<char>,
    b: Seq<char>,
    m: Seq<char>,
    c: Seq<char>,
    y: Seq<char>,
    d: Seq<char>,
)
    ensures
        head + (a + x + b) + (m + (c + y + d)) == (head + a) + x + (b + m + c) + y + d,
{
    assert(head + (a + x + b) + (m + (c + y + d)) =~= (head + a) + x + (b + m + c) + y + d);
}

/// What the system says: the fixed texts, the admitted memories, and the rest.
proof fn lemma_system(admitted: AdmittedCitations)
    ensures
        system_content(admitted) == SYSTEM_PROMPT@ + MEMORIES_FOLLOW@ + ACCEPTED_HEADING@
            + all_fenced(admitted.included()) + rest_of(admitted),
        admitted.conflicting().len() > 0 ==> system_content(admitted) == (SYSTEM_PROMPT@
            + MEMORIES_FOLLOW@ + ACCEPTED_HEADING@ + all_fenced(admitted.included())
            + CONFLICTING_HEADING@) + all_fenced(admitted.conflicting()) + Seq::<char>::empty(),
{
    let a = SYSTEM_PROMPT@ + MEMORIES_FOLLOW@ + ACCEPTED_HEADING@ + all_fenced(admitted.included());
    let c = all_fenced(admitted.conflicting());
    assert(a + (CONFLICTING_HEADING@ + c) =~= (a + CONFLICTING_HEADING@) + c + Seq::<
        char,
    >::empty());
}

/// What follows the admitted memories.
spec fn rest_of(admitted: AdmittedCitations) -> Seq<char> {
    if admitted.conflicting().len() == 0 {
        Seq::<char>::empty()
    } else {
        CONFLICTING_HEADING@ + all_fenced(admitted.conflicting())
    }
}

/// Memories in their fences, cut between two of them, are those before the cut and those after.
pub proof fn law_fences_of_a_cut_list(a: Seq<Citation>, b: Seq<Citation>)
    ensures
        all_fenced(a + b) == all_fenced(a) + all_fenced(b),
    decreases b.len(),
{
    if b.len() == 0 {
        assert(a + b =~= a);
        assert(all_fenced(a) + all_fenced(b) =~= all_fenced(a));
    } else {
        assert((a + b).drop_last() =~= a + b.drop_last());
        law_fences_of_a_cut_list(a, b.drop_last());
        assert(all_fenced(a + b) =~= all_fenced(a) + all_fenced(b));
    }
}

/// One memory in its fence.
pub proof fn law_fences_of_one(c: Citation)
    ensures
        all_fenced(seq![c]) == fenced(c),
{
    assert(seq![c].drop_last() =~= Seq::<Citation>::empty());
    assert(all_fenced(seq![c].drop_last()) =~= Seq::<char>::empty());
    assert(Seq::<char>::empty() + fenced(c) =~= fenced(c));
}

/// Every memory of a list stands among the fenced ones, after all that come before it and before
/// all that come after it.
pub proof fn law_every_memory_is_fenced(cites: Seq<Citation>, k: int)
    requires
        0 <= k < cites.len(),
    ensures
        all_fenced(cites) == all_fenced(cites.take(k)) + fenced(cites[k]) + all_fenced(
            cites.skip(k + 1),
        ),
{
    assert(cites =~= cites.take(k) + (seq![cites[k]] + cites.skip(k + 1)));
    law_fences_of_a_cut_list(cites.take(k), seq![cites[k]] + cites.skip(k + 1));
    law_fences_of_a_cut_list(seq![cites[k]], cites.skip(k + 1));
    law_fences_of_one(cites[k]);
    assert(all_fenced(cites) =~= all_fenced(cites.take(k)) + fenced(cites[k]) + all_fenced(
        cites.skip(k + 1),
    ));
}

/// How long some memories are in their fences, taken together.
pub open spec fn fenced_length(cites: Seq<Citation>) -> int {
    cites.fold_left(0int, |n: int, c: Citation| n + fenced(c).len())
}

proof fn lemma_fenced_length(cites: Seq<Citation>)
    ensures
        all_fenced(cites).len() == fenced_length(cites),
    decreases cites.len(),
{
    reveal_with_fuel(Seq::fold_left, 2);
    if cites.len() > 0 {
        lemma_fenced_length(cites.drop_last());
    }
}

/// The prompt has two messages. What the system says holds every admitted memory and every
/// conflicting one, each in its fence and in order, and nothing else but the fixed texts; what the
/// user says is the question.
#[verifier::rlimit(40)]
pub proof fn law_prompt_holds_every_memory(
    question: &str,
    admitted: &AdmittedCitations,
    r: Vec<Message>,
)
    requires
        call_ensures(build_prompt, (question, admitted), r),
    ensures
        r@.len() == 2,
        r@[0].role@ == "system"@,
        r@[1].role@ == "user"@,
        r@[1].content@ == question@,
        forall|k: int|
            0 <= k < admitted.included().len() ==> has(
                r@[0].content@,
                fenced(#[trigger] admitted.included()[k]),
            ),
        forall|k: int|
            0 <= k < admitted.conflicting().len() ==> has(
                r@[0].content@,
                fenced(#[trigger] admitted.conflicting()[k]),
            ),
        r@[0].content@.len() == SYSTEM_PROMPT@.len() + MEMORIES_FOLLOW@.len()
            + ACCEPTED_HEADING@.len() + fenced_length(admitted.included()) + if
            admitted.conflicting().len() == 0 {
            0
        } else {
            CONFLICTING_HEADING@.len() + fenced_length(admitted.conflicting())
        },
{
    let said = r@[0].content@;
    let ins = admitted.included();
    let cons = admitted.conflicting();
    lemma_fenced_length(ins);
    lemma_fenced_length(cons);
    lemma_system(*admitted);
    let head = SYSTEM_PROMPT@ + MEMORIES_FOLLOW@ + ACCEPTED_HEADING@;
    let tail = rest_of(*admitted);
    assert forall|k: int| 0 <= k < ins.len() implies has(said, fenced(#[trigger] ins[k])) by {
        let (a, b) = (all_fenced(ins.take(k)), all_fenced(ins.skip(k + 1)));
        law_every_memory_is_fenced(ins, k);
        lemma_regroup(head, a, fenced(ins[k]), b, tail);
        assert(said == (head + a) + fenced(ins[k]) + (b + tail));
        law_has(said, fenced(ins[k]));
    }
    let before = head + all_fenced(ins) + CONFLICTING_HEADING@;
    let none = Seq::<char>::empty();
    assert forall|k: int| 0 <= k < cons.len() implies has(said, fenced(#[trigger] cons[k])) by {
        let (a, b) = (all_fenced(cons.take(k)), all_fenced(cons.skip(k + 1)));
        law_every_memory_is_fenced(cons, k);
        lemma_regroup(before, a, fenced(cons[k]), b, none);
        assert(said == (before + a) + fenced(cons[k]) + (b + none));
        law_has(said, fenced(cons[k]));
    }
}

/// Whether the first text stands in `said` before the second, and what is between them.
pub open spec fn in_order(said: Seq<char>, x: Seq<char>, y: Seq<char>, between: Seq<char>) -> bool {
    exists|a: Seq<char>, c: Seq<char>| said == #[trigger] (a + x + between + y + c)
}

/// The memories stand in the prompt in order, first those that were admitted and then those that
/// conflict, and the heading that says so stands between the former and the latter.
#[verifier::rlimit(40)]
pub proof fn law_prompt_keeps_the_order(
    question: &str,
    admitted: &AdmittedCitations,
    r: Vec<Message>,
    j: int,
    k: int,
)
    requires
        call_ensures(build_prompt, (question, admitted), r),
    ensures
        0 <= j < k < admitted.included().len() ==> in_order(
            r@[0].content@,
            fenced(admitted.included()[j]),
            fenced(admitted.included()[k]),
            all_fenced(admitted.included().subrange(j + 1, k)),
        ),
        0 <= j < k < admitted.conflicting().len() ==> in_order(
            r@[0].content@,
            fenced(admitted.conflicting()[j]),
            fenced(admitted.conflicting()[k]),
            all_fenced(admitted.conflicting().subrange(j + 1, k)),
        ),
        0 <= j < admitted.included().len() && 0 <= k < admitted.conflicting().len() ==> in_order(
            r@[0].content@,
            fenced(admitted.included()[j]),
            fenced(admitted.conflicting()[k]),
            all_fenced(admitted.included().skip(j + 1)) + CONFLICTING_HEADING@ + all_fenced(
                admitted.conflicting().take(k),
            ),
        ),
{
    let said = r@[0].content@;
    let ins = admitted.included();
    let cons = admitted.conflicting();
    lemma_system(*admitted);
    let head = SYSTEM_PROMPT@ + MEMORIES_FOLLOW@ + ACCEPTED_HEADING@;
    let tail = rest_of(*admitted);
    let none = Seq::<char>::empty();
    if 0 <= j < k < ins.len() {
        let (a, b, c) = (
            all_fenced(ins.take(j)),
            all_fenced(ins.subrange(j + 1, k)),
            all_fenced(ins.skip(k + 1)),
        );
        lemma_two_fenced(ins, j, k);
        lemma_regroup_after(head, a, fenced(ins[j]), b, fenced(ins[k]), c, tail);
        assert(said == (head + a) + fenced(ins[j]) + b + fenced(ins[k]) + (c + tail));
    }
    if 0 <= j < k < cons.len() {
        let before = head + all_fenced(ins) + CONFLICTING_HEADING@;
        let (a, b, c) = (
            all_fenced(cons.take(j)),
            all_fenced(cons.subrange(j + 1, k)),
            all_fenced(cons.skip(k + 1)),
        );
        lemma_two_fenced(cons, j, k);
        lemma_regroup_after(before, a, fenced(cons[j]), b, fenced(cons[k]), c, none);
        assert(said == (before + a) + fenced(cons[j]) + b + fenced(cons[k]) + (c + none));
    }
    if 0 <= j < ins.len() && 0 <= k < cons.len() {
        let (a, b) = (all_fenced(ins.take(j)), all_fenced(ins.skip(j + 1)));
        let (c, d) = (all_fenced(cons.take(k)), all_fenced(cons.skip(k + 1)));
        let m = CONFLICTING_HEADING@;
        law_every_memory_is_fenced(ins, j);
        law_every_memory_is_fenced(cons, k);
        lemma_regroup_apart(head, a, fenced(ins[j]), b, m, c, fenced(cons[k]), d);
        assert(said == (head + a) + fenced(ins[j]) + (b + m + c) + fenced(cons[k]) + d);
    }
}

proof fn lemma_two_fenced(cites: Seq<Citation>, j: int, k: int)
    requires
        0 <= j < k < cites.len(),
    ensures
        all_fenced(cites) == all_fenced(cites.take(j)) + fenced(cites[j]) + all_fenced(
            cites.subrange(j + 1, k),
        ) + fenced(cites[k]) + all_fenced(cites.skip(k + 1)),
{
    let rest = cites.skip(j + 1);
    let (a, b, c) = (
        all_fenced(cites.take(j)),
        all_fenced(cites.subrange(j + 1, k)),
        all_fenced(cites.skip(k + 1)),
    );
    let (x, y) = (fenced(cites[j]), fenced(cites[k]));
    law_every_memory_is_fenced(cites, j);
    law_every_memory_is_fenced(rest, k - j - 1);
    assert(rest.take(k - j - 1) =~= cites.subrange(j + 1, k));
    assert(rest.skip(k - j) =~= cites.skip(k + 1));
    lemma_nest(a, x, b, y, c);
}

proof fn lemma_nest(a: Seq<char>, x: Seq<char>, b: Seq<char>, y: Seq<char>, c: Seq<char>)
    ensures
        a + x + (b + y + c) == a + x + b + y + c,
{
    assert(a + x + (b + y + c) =~= a + x + b + y + c);
}

// ---------------------------------------------------------------------------------------------
// One memory
// ---------------------------------------------------------------------------------------------

/// Where a memory comes from, in words: who shared it, what it is from and when it was, each only
/// where it is known.
pub open spec fn whence(c: Citation) -> Seq<char> {
    let by = match c.grantor_name {
        Some(g) => " shared with you by "@ + g@,
        None => Seq::<char>::empty(),
    };
    let from = match c.source {
        Some(s) => " from "@ + s@,
        None => Seq::<char>::empty(),
    };
    let on = match c.occurred_at {
        Some(t) => match day_of(t.secs, t.nanos) {
            Some(d) => " on "@ + d,
            None => Seq::<char>::empty(),
        },
        None => Seq::<char>::empty(),
    };
    by + from + on
}

/// A memory in its fence begins with the mark it is cited by and where it comes from, and ends
/// with what is left of its text between a line that begins the fence and one that ends it, both
/// under the memory's own number.
pub proof fn law_one_fence(c: &Citation, r: String)
    requires
        call_ensures(fence_one, (c,), r),
    ensures
        ({
            let i = decimal(c.index as nat);
            let head = "[memory_"@ + i + "]"@ + whence(*c);
            let begin = "\n<<<MEMORY_"@ + i + "_BEGIN>>>\n"@;
            let end = "\n<<<MEMORY_"@ + i + "_END>>>\n\n"@;
            r@ == head + (begin + sanitized(c.text@) + end)
        }),
{
    let i = decimal(c.index as nat);
    let head = "[memory_"@ + i + "]"@ + whence(*c);
    let begin = "\n<<<MEMORY_"@ + i + "_BEGIN>>>\n"@;
    let end = "\n<<<MEMORY_"@ + i + "_END>>>\n\n"@;
    let t = sanitized(c.text@);
    assert(attribution(*c) =~= whence(*c));
    assert(r@ =~= head + (begin + t + end));
}

/// Whether no angle stands in a text.
pub open spec fn no_angle(s: Seq<char>) -> bool {
    forall|k: int| 0 <= k < s.len() ==> #[trigger] s[k] != '<'
}

/// A mark begins with an angle and has no other, and is told from every other mark by one of its
/// characters.
proof fn lemma_marks_differ()
    ensures
        forall|k: int|
            0 <= k < 4 ==> (#[trigger] role_mark(k)).len() >= 10 && role_mark(k)[0] == '<'
                && role_mark(k).last() == '>' && no_angle(role_mark(k).skip(1)),
        forall|j: int, k: int|
            0 <= j < 4 && 0 <= k < 4 && j != k ==> {
                ||| (#[trigger] role_mark(j))[2] != (#[trigger] role_mark(k))[2]
                ||| role_mark(j)[5] != role_mark(k)[5]
            },
        FENCE@.len() == 10,
        FENCE@ == seq!['<', '<', '<', 'M', 'E', 'M', 'O', 'R', 'Y', '_'],
{
    reveal_strlit("<<<MEMORY_");
    reveal_strlit("<|im_start|>");
    reveal_strlit("<|im_end|>");
    reveal_strlit("<|system|>");
    reveal_strlit("<|endoftext|>");
    assert(FENCE@ =~= seq!['<', '<', '<', 'M', 'E', 'M', 'O', 'R', 'Y', '_']);
}

/// A text without angles holds no mark and no fence.
proof fn lemma_no_angle(s: Seq<char>)
    requires
        no_angle(s),
    ensures
        unmarked(s),
        !(has(s, FENCE@)),
        forall|k: int| 0 <= k < 4 ==> without(s, #[trigger] role_mark(k)) == s,
        replaced(s, FENCE@, DEFUSED@) == s,
        forall|k: int, i: int| 0 <= k < 4 ==> !(#[trigger] occurs_at(s, role_mark(k), i)),
{
    lemma_marks_differ();
    assert forall|k: int, i: int| 0 <= k < 4 implies !(#[trigger] occurs_at(
        s,
        role_mark(k),
        i,
    )) by {
        if occurs_at(s, role_mark(k), i) {
            assert(s.subrange(i, i + role_mark(k).len())[0] == role_mark(k)[0]);
        }
    }
    if has(s, FENCE@) {
        let at = choose|at: int| #[trigger] occurs_at(s, FENCE@, at);
        assert(s.subrange(at, at + 10)[0] == FENCE@[0]);
    }
    assert forall|k: int| 0 <= k < 4 implies without(s, #[trigger] role_mark(k)) == s by {
        law_nothing_to_replace(s, role_mark(k), Seq::empty());
    }
    law_nothing_to_replace(s, FENCE@, DEFUSED@);
}

/// A role mark is taken out of a memory, and what stands before and after it stays.
#[verifier::rlimit(40)]
pub proof fn law_role_mark_is_taken_out(a: Seq<char>, k: int, b: Seq<char>)
    requires
        0 <= k < 4,
        no_angle(a) && no_angle(b),
        a.len() > 0 ==> !white_space(a.first()),
        b.len() > 0 ==> !white_space(b.last()),
    ensures
        sanitized(a + role_mark(k) + b) == a + b,
{
    lemma_marks_differ();
    let m = role_mark(k);
    let s = a + m + b;
    let none = Seq::<char>::empty();
    assert(s.first() == if a.len() > 0 {
        a.first()
    } else {
        '<'
    });
    assert(s.last() == if b.len() > 0 {
        b.last()
    } else {
        '>'
    });
    assert(none + s + none =~= s);
    law_trim(none, s, none);
    assert forall|p: int| 0 <= p < s.len() && p != a.len() implies s[p] != '<' by {
        if p < a.len() {
            assert(s[p] == a[p]);
        } else if p < a.len() + m.len() {
            assert(s[p] == m.skip(1)[p - a.len() - 1]);
        } else {
            assert(s[p] == b[p - a.len() - m.len()]);
        }
    }
    assert forall|j: int, p: int| 0 <= j < 4 && (p != a.len() || j != k) implies !(
    #[trigger] occurs_at(s, role_mark(j), p)) by {
        if occurs_at(s, role_mark(j), p) {
            let n = role_mark(j).len() as int;
            assert(s.subrange(p, p + n)[0] == role_mark(j)[0]);
            assert(p == a.len());
            assert(s.subrange(p, p + n)[2] == role_mark(j)[2]);
            assert(s.subrange(p, p + n)[5] == role_mark(j)[5]);
            assert(s[p + 2] == m[2]);
            assert(s[p + 5] == m[5]);
        }
    }
    assert forall|j: int| 0 <= j < 4 && j != k implies without(s, #[trigger] role_mark(j)) == s by {
        if has(s, role_mark(j)) {
            let at = choose|at: int| #[trigger] occurs_at(s, role_mark(j), at);
        }
        law_nothing_to_replace(s, role_mark(j), none);
    }
    let c = a + b;
    assert(no_angle(c)) by {
        assert forall|p: int| 0 <= p < c.len() implies #[trigger] c[p] != '<' by {
            if p < a.len() {
                assert(c[p] == a[p]);
            } else {
                assert(c[p] == b[p - a.len()]);
            }
        }
    }
    lemma_no_angle(b);
    lemma_no_angle(c);
    law_replace(a, m, none, b);
    assert(without(s, m) =~= c);
    assert(s.subrange(a.len() as int, (a.len() + m.len()) as int) =~= m);
    assert(occurs_at(s, m, a.len() as int));
    assert(has(s, m));
    assert(!unmarked(s));
    let s1 = without(s, role_mark(0));
    let s2 = without(s1, role_mark(1));
    let s3 = without(s2, role_mark(2));
    let s4 = without(s3, role_mark(3));
    assert(s1 == if k == 0 {
        c
    } else {
        s
    });
    assert(s2 == if k <= 1 {
        c
    } else {
        s
    });
    assert(s3 == if k <= 2 {
        c
    } else {
        s
    });
    assert(s4 == c);
    assert(swept(s) == c);
    assert(stripped_of_marks(s) == stripped_of_marks(c));
}

/// A fence in a memory is defused, and what stands before and after it stays.
#[verifier::rlimit(40)]
pub proof fn law_fence_is_defused(a: Seq<char>, b: Seq<char>)
    requires
        no_angle(a) && no_angle(b),
        a.len() > 0 ==> !white_space(a.first()),
        b.len() > 0 ==> !white_space(b.last()),
    ensures
        sanitized(a + "<<<MEMORY_"@ + b) == a + "<<\u{200b}<MEMORY_"@ + b,
{
    lemma_marks_differ();
    let f = FENCE@;
    let s = a + f + b;
    let none = Seq::<char>::empty();
    assert(s.first() == if a.len() > 0 {
        a.first()
    } else {
        '<'
    });
    assert(s.last() == if b.len() > 0 {
        b.last()
    } else {
        '_'
    });
    assert(none + s + none =~= s);
    law_trim(none, s, none);
    lemma_no_angle(b);
    let n = a.len() as int;
    assert forall|p: int| 0 <= p < s.len() && !(n <= p < n + 3) implies s[p] != '<' by {
        if p < n {
            assert(s[p] == a[p]);
        } else if p < n + 10 {
            assert(s[p] == f[p - n]);
        } else {
            assert(s[p] == b[p - n - 10]);
        }
    }
    assert(unmarked(s)) by {
        assert forall|j: int| 0 <= j < 4 implies !(has(s, #[trigger] role_mark(j))) by {
            if has(s, role_mark(j)) {
                let p = choose|p: int| #[trigger] occurs_at(s, role_mark(j), p);
                let m = role_mark(j);
                assert(s.subrange(p, p + m.len())[0] == m[0]);
                assert(s.subrange(p, p + m.len())[1] == m[1]);
                lemma_second(j);
                assert(s[n + 1] == f[1] && s[n + 2] == f[2] && s[n + 3] == f[3]);
            }
        }
    }
    assert forall|i: int| 0 <= i < a.len() implies !occurs_at(a + f + b, f, i) by {
        if occurs_at(s, f, i) {
            assert(s.subrange(i, i + 10)[0] == f[0]);
            assert(s[i] == a[i]);
        }
    }
    law_replace(a, f, DEFUSED@, b);
    assert(stripped_of_marks(s) == s);
}

proof fn lemma_second(k: int)
    requires
        0 <= k < 4,
    ensures
        role_mark(k)[1] == '|',
{
    reveal_strlit("<|im_start|>");
    reveal_strlit("<|im_end|>");
    reveal_strlit("<|system|>");
    reveal_strlit("<|endoftext|>");
}

/// What a memory must not hold, in the letters.
pub proof fn law_marks_in_letters()
    ensures
        role_mark(0) == "<|im_start|>"@,
        role_mark(1) == "<|im_end|>"@,
        role_mark(2) == "<|system|>"@,
        role_mark(3) == "<|endoftext|>"@,
{
}

// ---------------------------------------------------------------------------------------------
// What comes back
// ---------------------------------------------------------------------------------------------

/// A piece of a streamed answer is what the first choice of a chunk says, unless that is nothing;
/// the closing event adds nothing, whatever comes with it.
pub proof fn law_stream_pieces(
    data: &str,
    chunk: &Option<Vec<Option<String>>>,
    r: Option<String>,
)
    requires
        call_ensures(stream_piece, (data, chunk), r),
    ensures
        r is Some <==> data@ != "[DONE]"@ && (*chunk matches Some(choices) && choices@.len() > 0 && (
        choices@[0] matches Some(s) && s@.len() > 0)),
        r matches Some(piece) ==> (*chunk matches Some(choices) && (choices@[0] matches Some(s)
            && piece@ == s@)),
{
}

/// The text of a completion is what its first choice says, and nothing where there is none.
pub proof fn law_completion(choices: &Vec<String>, r: String)
    requires
        call_ensures(completion_text, (choices,), r),
    ensures
        choices@.len() > 0 ==> r@ == choices@[0]@,
        choices@.len() == 0 ==> r@.len() == 0,
{
}

/// The generator is asked with the memories where there are any, and without them and in other
/// words where there are none; the question is always the user's.
pub proof fn law_generator_request(
    client: &GeneratorClient,
    question: &str,
    admitted: Option<&AdmittedCitations>,
    stream: bool,
    r: Json,
) -> (messages: Seq<JsonV>)
    requires
        call_ensures(GeneratorClient::request, (client, question, admitted, stream), r),
    ensures
        holds(r@, "messages"@, JsonV::Arr(messages)),
        holds(r@, "model"@, JsonV::Str(client.model@)),
        holds(r@, "stream"@, JsonV::Bool(stream)),
        holds(r@, "max_tokens"@, JsonV::Num(Num::Uint(512))),
        holds(
            r@,
            "temperature"@,
            JsonV::Num(Num::Real(Score { bits: 0x3fc9_9999_9999_999a })),
        ),
        size(r@) == 5,
        messages.len() == 2,
        holds(messages[0], "role"@, JsonV::Str("system"@)),
        holds(messages[1], "role"@, JsonV::Str("user"@)),
        holds(messages[1], "content"@, JsonV::Str(question@)),
        admitted matches Some(a) ==> holds(
            messages[0],
            "content"@,
            JsonV::Str(system_content(*a)),
        ),
        admitted is None ==> holds(messages[0], "content"@, JsonV::Str(CHITCHAT_PROMPT@)),
{
    lemma_holds(r@, 0);
    lemma_holds(r@, 1);
    lemma_holds(r@, 2);
    lemma_holds(r@, 3);
    lemma_holds(r@, 4);
    let messages = r@->Obj_0[1].1->Arr_0;
    lemma_holds(messages[0], 0);
    lemma_holds(messages[0], 1);
    lemma_holds(messages[1], 0);
    lemma_holds(messages[1], 1);
    messages
}

} // verus!
