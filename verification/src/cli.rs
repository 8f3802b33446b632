//! Key sequences typed as text, as the command-line tool takes them: `a`
//! presses a key, `a^` releases it, and `f+j` presses keys together.
use vstd::prelude::*;
use crate::config::LayoutV;
use crate::machine::{ActionV, EventV, SmState, Step, key_press, process};
use crate::statemachine::{InputEvent, OutputAction, StateMachine, time_ok};
use crate::text::{chars_of, sub_string, debug_text, debug_str};

verus! {

/// A key-up event.
pub open spec fn key_release(key: Seq<char>) -> EventV {
    EventV { key, down: false, shift: false, is_repeat: false }
}

/// The parts of `s` between the characters `c`, as `str::split` gives them.
pub open spec fn split_on(s: Seq<char>, c: char) -> Seq<Seq<char>>
    decreases s.len(),
{
    if s.len() == 0 {
        seq![Seq::empty()]
    } else {
        let r = split_on(s.drop_last(), c);
        if s.last() == c {
            r.push(Seq::empty())
        } else {
            r.update(r.len() - 1, r.last().push(s.last()))
        }
    }
}

/// Press each key in turn.
pub open spec fn press_all(l: LayoutV, s: SmState, keys: Seq<Seq<char>>, now: u64) -> Step
    decreases keys.len(),
{
    if keys.len() == 0 {
        (s, Seq::empty())
    } else {
        let a = press_all(l, s, keys.drop_last(), now);
        let b = process(l, a.0, key_press(keys.last()), now);
        (b.0, a.1 + b.1)
    }
}

/// What a typed token does: a release (`k^`), a chord (`a+b`), or a press.
pub open spec fn spec_process_token(l: LayoutV, s: SmState, token: Seq<char>, now: u64) -> Result<Step, Seq<char>> {
    if token.len() > 0 && token.last() == '^' {
        let k = token.drop_last();
        if k.len() == 0 {
            Err("invalid token "@ + debug_text(token) + ": empty key before '^'"@)
        } else if k.contains('+') {
            Err("invalid token "@ + debug_text(token) + ": '^' and '+' cannot be combined"@)
        } else {
            Ok(process(l, s, key_release(k), now))
        }
    } else if token.contains('+') {
        let parts = split_on(token, '+');
        if exists|i: int| 0 <= i < parts.len() && (#[trigger] parts[i]).len() == 0 {
            Err("invalid token "@ + debug_text(token) + ": empty segment in chord"@)
        } else {
            Ok(press_all(l, s, parts, now))
        }
    } else if token.len() == 0 {
        Err("invalid token: empty key name"@)
    } else {
        Ok(process(l, s, key_press(token), now))
    }
}

proof fn lemma_split_on(s: Seq<char>, c: char)
    ensures
        split_on(s, c).len() >= 1,
    decreases s.len(),
{
    if s.len() > 0 {
        lemma_split_on(s.drop_last(), c);
    }
}

/// The parts of `s` between the `+` signs.
fn split_plus(s: &str) -> (r: Vec<String>)
    ensures
        r.deep_view() == split_on(s@, '+'),
{
    let cs = chars_of(s);
    let n = cs.len();
    let mut r: Vec<String> = Vec::new();
    let mut start: usize = 0;
    let mut i: usize = 0;
    assert(s@.take(0) =~= Seq::<char>::empty());
    while i < n
        invariant
            i <= n,
            start <= i,
            n == s@.len(),
            cs@ == s@,
            r.deep_view().push(s@.subrange(start as int, i as int)) == split_on(s@.take(i as int), '+'),
        decreases n - i,
    {
        let ghost t = s@.take(i + 1);
        assert(t.drop_last() =~= s@.take(i as int));
        assert(t.last() == cs@[i as int]);
        proof {
            lemma_split_on(s@.take(i as int), '+');
        }
        if cs[i] == '+' {
            let ghost before = r.deep_view();
            r.push(sub_string(s, start, i));
            assert(r.deep_view() =~= before.push(s@.subrange(start as int, i as int)));
            start = i + 1;
            assert(s@.subrange(start as int, i + 1) =~= Seq::<char>::empty());
            assert(r.deep_view().push(s@.subrange(start as int, i + 1)) =~= split_on(t, '+'));
        } else {
            let ghost p = split_on(s@.take(i as int), '+');
            assert(s@.subrange(start as int, i + 1) =~= s@.subrange(start as int, i as int).push(cs@[i as int]));
            assert(r.deep_view().push(s@.subrange(start as int, i + 1)) =~= p.update(
                p.len() - 1,
                p.last().push(cs@[i as int]),
            ));
        }
        i = i + 1;
    }
    assert(s@.take(n as int) =~= s@);
    r.push(sub_string(s, start, n));
    r
}

fn all_nonempty(parts: &Vec<String>) -> (b: bool)
    ensures
        b == !(exists|i: int| 0 <= i < parts.deep_view().len() && (#[trigger] parts.deep_view()[i]).len() == 0),
{
    let mut i: usize = 0;
    while i < parts.len()
        invariant
            i <= parts.len(),
            forall|j: int| 0 <= j < i ==> (#[trigger] parts.deep_view()[j]).len() != 0,
        decreases parts.len() - i,
    {
        if parts[i].unicode_len() == 0 {
            assert(parts.deep_view()[i as int].len() == 0);
            return false;
        }
        i = i + 1;
    }
    true
}

/// Process one typed token at `now`: `k^` releases `k`, `a+b` presses `a`
/// then `b`, anything else presses that key. An ill-formed token is an
/// error and leaves the machine unchanged.
pub fn process_token(sm: &mut StateMachine, token: &str, now: u64) -> (r: Result<Vec<OutputAction>, String>)
    requires
        old(sm).wf(),
        time_ok(now),
    ensures
        final(sm).wf(),
        final(sm).layout_view() == old(sm).layout_view(),
        match spec_process_token(old(sm).layout_view(), old(sm)@, token@, now) {
            Ok(step) => r matches Ok(v) && v.deep_view() == step.1 && final(sm)@ == step.0,
            Err(m) => r matches Err(e) && e@ == m && final(sm)@ == old(sm)@,
        },
{
    let cs = chars_of(token);
    let n = cs.len();
    if n > 0 && cs[n - 1] == '^' {
        let k = sub_string(token, 0, n - 1);
        assert(k@ =~= token@.drop_last());
        if k.unicode_len() == 0 {
            return Err(
                String::from_str("invalid token ").concat(debug_str(token).as_str()).concat(
                    ": empty key before '^'",
                ),
            );
        }
        if crate::statemachine::has_char(k.as_str(), '+') {
            return Err(
                String::from_str("invalid token ").concat(debug_str(token).as_str()).concat(
                    ": '^' and '+' cannot be combined",
                ),
            );
        }
        return Ok(sm.process(InputEvent::up(k.as_str()), now));
    }
    if crate::statemachine::has_char(token, '+') {
        let parts = split_plus(token);
        let ghost pv = parts.deep_view();
        if !all_nonempty(&parts) {
            return Err(
                String::from_str("invalid token ").concat(debug_str(token).as_str()).concat(
                    ": empty segment in chord",
                ),
            );
        }
        let ghost l = sm.layout_view();
        let ghost s0 = sm@;
        let mut actions: Vec<OutputAction> = Vec::new();
        let mut j: usize = 0;
        assert(pv.take(0) =~= Seq::<Seq<char>>::empty());
        assert(actions.deep_view() =~= Seq::<ActionV>::empty());
        while j < parts.len()
            invariant
                j <= parts.len(),
                pv == parts.deep_view(),
                sm.wf(),
                time_ok(now),
                sm.layout_view() == l,
                press_all(l, s0, pv.take(j as int), now) == (sm@, actions.deep_view()),
            decreases parts.len() - j,
        {
            assert(pv.take(j + 1).drop_last() =~= pv.take(j as int));
            assert(pv.take(j + 1).last() == parts@[j as int]@);
            let more = sm.process(InputEvent::down(parts[j].as_str()), now);
            let ghost before = actions.deep_view();
            let ghost mv = more.deep_view();
            let mut more = more;
            actions.append(&mut more);
            assert(actions.deep_view() =~= before + mv);
            j = j + 1;
        }
        assert(pv.take(j as int) =~= pv);
        return Ok(actions);
    }
    if n == 0 {
        return Err(String::from_str("invalid token: empty key name"));
    }
    Ok(sm.process(InputEvent::down(token), now))
}

} // verus!
