//! Swap actions a user asks the exchange to run, in sequence.
use crate::errors::ExchangeError;
use crate::utils::{no_duplicates, views_of};
use vstd::prelude::*;

verus! {

/// Single swap action.
#[derive(Clone, Debug)]
pub struct SwapAction {
    /// Pool which should be used for swapping.
    pub pool_id: u64,
    /// Token to swap from.
    pub token_in: String,
    /// Amount to exchange.
    /// If amount_in is None, it will take amount_out from previous step.
    /// Will fail if amount_in is None on the first step.
    pub amount_in: Option<u128>,
    /// Token to swap into.
    pub token_out: String,
    /// Required minimum amount of token_out.
    pub min_amount_out: u128,
}

/// Single swap by output action.
#[derive(Clone, Debug)]
pub struct SwapByOutputAction {
    /// Pool which should be used for swapping.
    pub pool_id: u64,
    /// Token to swap from.
    pub token_in: String,
    /// The desired amount of the output token.
    /// If amount_out is None, it will take amount_in from previous step.
    /// Will fail if amount_out is None on the first step.
    pub amount_out: Option<u128>,
    /// Token to swap into.
    pub token_out: String,
    /// The maximum amount of the input token that can be used for the swap.
    pub max_amount_in: Option<u128>,
}

/// Single action. Allows to execute sequence of various actions initiated by an account.
#[derive(Clone, Debug)]
pub enum Action {
    Swap(SwapAction),
    SwapByOutput(SwapByOutputAction),
}

/// Result from action execution.
#[derive(Clone, Copy, Debug, PartialEq, Eq, Structural)]
pub enum ActionResult {
    /// No result.
    Nothing,
    /// Amount of token was received.
    Amount(u128),
}

/// The token an action takes.
pub open spec fn action_token_in(a: Action) -> Seq<char> {
    match a {
        Action::Swap(s) => s.token_in@,
        Action::SwapByOutput(s) => s.token_in@,
    }
}

/// The token an action gives.
pub open spec fn action_token_out(a: Action) -> Seq<char> {
    match a {
        Action::Swap(s) => s.token_out@,
        Action::SwapByOutput(s) => s.token_out@,
    }
}

/// Whether token `t` is involved in one of the actions.
pub open spec fn involved(actions: Seq<Action>, t: Seq<char>) -> bool {
    exists|i: int| 0 <= i < actions.len() && (action_token_in(#[trigger] actions[i]) == t || action_token_out(actions[i]) == t)
}

impl Action {
    /// Returns involved tokens in this action. Useful for checking permissions and storage.
    pub fn tokens(&self) -> (r: Vec<String>)
        ensures
            r@.len() == 2,
            r@[0]@ == action_token_in(*self),
            r@[1]@ == action_token_out(*self),
    {
        match self {
            Action::Swap(a) => vec![a.token_in.clone(), a.token_out.clone()],
            Action::SwapByOutput(a) => vec![a.token_in.clone(), a.token_out.clone()],
        }
    }

    /// The pool the action runs in.
    pub fn get_pool_id(&self) -> (r: u64)
        ensures
            r == match *self {
                Action::Swap(a) => a.pool_id,
                Action::SwapByOutput(a) => a.pool_id,
            },
    {
        match self {
            Action::Swap(a) => a.pool_id,
            Action::SwapByOutput(a) => a.pool_id,
        }
    }

    /// The token the action takes.
    pub fn get_token_in(&self) -> (r: &String)
        ensures
            r@ == action_token_in(*self),
    {
        match self {
            Action::Swap(a) => &a.token_in,
            Action::SwapByOutput(a) => &a.token_in,
        }
    }

    /// The token the action gives.
    pub fn get_token_out(&self) -> (r: &String)
        ensures
            r@ == action_token_out(*self),
    {
        match self {
            Action::Swap(a) => &a.token_out,
            Action::SwapByOutput(a) => &a.token_out,
        }
    }

    /// The amount a swap by output asks for; a plain swap has none to give.
    pub fn get_amount_out(&self) -> (r: Result<Option<u128>, ExchangeError>)
        ensures
            match *self {
                Action::Swap(_) => r == Err::<Option<u128>, ExchangeError>(ExchangeError::Unsupported),
                Action::SwapByOutput(a) => r == Ok::<Option<u128>, ExchangeError>(a.amount_out),
            },
    {
        match self {
            Action::Swap(_) => Err(ExchangeError::Unsupported),
            Action::SwapByOutput(a) => Ok(a.amount_out),
        }
    }
}

impl ActionResult {
    /// The amount received; a step with no result has none.
    pub fn to_amount(&self) -> (r: Result<u128, ExchangeError>)
        ensures
            match *self {
                ActionResult::Amount(v) => r == Ok::<u128, ExchangeError>(v),
                ActionResult::Nothing => r == Err::<u128, ExchangeError>(ExchangeError::WrongActionResult),
            },
    {
        match self {
            ActionResult::Amount(v) => Ok(*v),
            ActionResult::Nothing => Err(ExchangeError::WrongActionResult),
        }
    }
}

/// Adds `t` to a list of distinct tokens unless it is there.
fn add_token(tokens: &mut Vec<String>, t: &String)
    requires
        no_duplicates(views_of(old(tokens)@)),
    ensures
        no_duplicates(views_of(final(tokens)@)),
        forall|s: Seq<char>| views_of(final(tokens)@).contains(s) <==> (views_of(old(tokens)@).contains(s) || s == t@),
{
    let mut i: usize = 0;
    while i < tokens.len()
        invariant
            i <= tokens.len(),
            tokens@ == old(tokens)@,
            no_duplicates(views_of(old(tokens)@)),
            forall|j: int| 0 <= j < i ==> tokens@[j]@ != t@,
        decreases tokens.len() - i,
    {
        if tokens[i] == *t {
            assert(views_of(tokens@)[i as int] == t@);
            assert forall|s: Seq<char>| views_of(tokens@).contains(s) <==> (views_of(old(tokens)@).contains(s) || s == t@) by {
                if s == t@ {
                    assert(views_of(tokens@)[i as int] == s);
                }
            }
            return;
        }
        i = i + 1;
    }
    let ghost before = views_of(tokens@);
    tokens.push(t.clone());
    let ghost after = views_of(tokens@);
    assert(after =~= before.push(t@));
    assert forall|a: int, b: int| 0 <= a < b < after.len() implies after[a] != after[b] by {
        if b == before.len() {
            assert(before[a] == old(tokens)@[a]@);
        }
    }
    assert forall|s: Seq<char>| after.contains(s) <==> (before.contains(s) || s == t@) by {
        if after.contains(s) {
            let k = choose|k: int| 0 <= k < after.len() && after[k] == s;
            if k < before.len() {
                assert(before[k] == s);
            }
        }
        if before.contains(s) {
            let k = choose|k: int| 0 <= k < before.len() && before[k] == s;
            assert(after[k] == s);
        }
        if s == t@ {
            assert(after[before.len() as int] == s);
        }
    }
}

/// return involved tokens in an action array, each once
pub fn get_tokens_in_actions(actions: &Vec<Action>) -> (r: Vec<String>)
    ensures
        no_duplicates(views_of(r@)),
        forall|t: Seq<char>| views_of(r@).contains(t) <==> involved(actions@, t),
{
    let mut tokens: Vec<String> = Vec::new();
    let mut i: usize = 0;
    assert(views_of(tokens@) =~= Seq::<Seq<char>>::empty());
    while i < actions.len()
        invariant
            i <= actions.len(),
            no_duplicates(views_of(tokens@)),
            forall|t: Seq<char>| views_of(tokens@).contains(t) <==> involved(actions@.subrange(0, i as int), t),
        decreases actions.len() - i,
    {
        let ghost pre = actions@.subrange(0, i as int);
        let ghost post = actions@.subrange(0, i + 1);
        add_token(&mut tokens, actions[i].get_token_in());
        add_token(&mut tokens, actions[i].get_token_out());
        assert forall|t: Seq<char>| involved(post, t) <==> (involved(pre, t) || t == action_token_in(actions@[i as int]) || t == action_token_out(actions@[i as int])) by {
            if involved(post, t) {
                let k = choose|k: int| 0 <= k < post.len() && (action_token_in(#[trigger] post[k]) == t || action_token_out(post[k]) == t);
                if k < i {
                    assert(pre[k] == post[k]);
                }
            }
            if involved(pre, t) {
                let k = choose|k: int| 0 <= k < pre.len() && (action_token_in(#[trigger] pre[k]) == t || action_token_out(pre[k]) == t);
                assert(post[k] == pre[k]);
            }
            if t == action_token_in(actions@[i as int]) || t == action_token_out(actions@[i as int]) {
                assert(post[i as int] == actions@[i as int]);
            }
        }
        i = i + 1;
    }
    assert(actions@.subrange(0, actions.len() as int) =~= actions@);
    tokens
}

/// Whether every action is of the kind of the first.
pub open spec fn all_same_action_type(actions: Seq<Action>) -> bool {
    actions.len() == 0 || forall|i: int| 0 <= i < actions.len() ==> (#[trigger] actions[i] is Swap) == (actions[0] is Swap)
}

/// Refuses a mix of plain swaps and swaps by output.
pub fn assert_all_same_action_type(actions: &Vec<Action>) -> (r: Result<(), ExchangeError>)
    ensures
        all_same_action_type(actions@) ==> r is Ok,
        !all_same_action_type(actions@) ==> r == Err::<(), ExchangeError>(ExchangeError::InvalidActionType),
{
    if actions.len() == 0 {
        return Ok(());
    }
    let first_is_swap = match &actions[0] {
        Action::Swap(_) => true,
        Action::SwapByOutput(_) => false,
    };
    let mut i: usize = 0;
    while i < actions.len()
        invariant
            0 < actions.len(),
            i <= actions.len(),
            first_is_swap == (actions@[0] is Swap),
            forall|j: int| 0 <= j < i ==> (#[trigger] actions@[j] is Swap) == first_is_swap,
        decreases actions.len() - i,
    {
        let is_swap = match &actions[i] {
            Action::Swap(_) => true,
            Action::SwapByOutput(_) => false,
        };
        if is_swap != first_is_swap {
            assert((actions@[i as int] is Swap) != (actions@[0] is Swap));
            return Err(ExchangeError::InvalidActionType);
        }
        i = i + 1;
    }
    Ok(())
}

} // verus!
