//! Registered accounts and the tokens they hold.
use vstd::prelude::*;

use crate::token::{Token, TokenView};

verus! {

/// An account: its e-mail address (which identifies it), password, display name and the
/// tokens issued to it.
#[derive(Debug)]
pub struct User {
    email: String,
    password: String,
    name: String,
    active_tokens: Vec<Token>,
}

/// The contents of a `User`.
pub struct UserView {
    pub email: Seq<char>,
    pub password: Seq<char>,
    pub name: Seq<char>,
    pub active_tokens: Seq<TokenView>,
}

/// The views of a sequence of tokens.
pub open spec fn token_views(tokens: Seq<Token>) -> Seq<TokenView> {
    tokens.map_values(|t: Token| t@)
}

/// The tokens of `tokens` that `banned` does not list, in their order.
pub open spec fn without_tokens(tokens: Seq<TokenView>, banned: Seq<TokenView>) -> Seq<
    TokenView,
> {
    tokens.filter(|t: TokenView| !banned.contains(t))
}

impl View for User {
    type V = UserView;

    closed spec fn view(&self) -> UserView {
        UserView {
            email: self.email@,
            password: self.password@,
            name: self.name@,
            active_tokens: token_views(self.active_tokens@),
        }
    }
}

/// Whether some token of `tokens` has the contents `t`.
pub fn tokens_contain(tokens: &Vec<Token>, t: &Token) -> (r: bool)
    ensures
        r == token_views(tokens@).contains(t@),
{
    let mut i: usize = 0;
    while i < tokens.len()
        invariant
            i <= tokens.len(),
            forall|k: int| 0 <= k < i ==> tokens@[k]@ != t@,
        decreases tokens.len() - i,
    {
        if tokens[i].same_as(t) {
            assert(token_views(tokens@)[i as int] == t@);
            return true;
        }
        i = i + 1;
    }
    assert forall|k: int| 0 <= k < token_views(tokens@).len() implies token_views(
        tokens@,
    )[k] != t@ by {
        assert(token_views(tokens@)[k] == tokens@[k]@);
    }
    false
}

impl User {
    pub fn new(email: String, name: String, password: String) -> (u: Self)
        ensures
            u@ == (UserView {
                email: email@,
                password: password@,
                name: name@,
                active_tokens: Seq::empty(),
            }),
    {
        let u = User { email, name, password, active_tokens: Vec::new() };
        assert(token_views(u.active_tokens@) =~= Seq::empty());
        u
    }

    /// Adds `token` at the end of the account's tokens.
    pub fn add_token(&mut self, token: Token)
        ensures
            final(self)@.email == old(self)@.email,
            final(self)@.password == old(self)@.password,
            final(self)@.name == old(self)@.name,
            final(self)@.active_tokens == old(self)@.active_tokens.push(token@),
    {
        let ghost t = token@;
        self.active_tokens.push(token);
        assert(token_views(self.active_tokens@) =~= token_views(old(self).active_tokens@).push(
            t,
        ));
    }

    pub fn get_user_id(&self) -> (r: String)
        ensures
            r@ == self@.email,
    {
        self.email.clone()
    }

    pub fn get_pass_id(&self) -> (r: String)
        ensures
            r@ == self@.password,
    {
        self.password.clone()
    }

    pub fn get_name(&self) -> (r: String)
        ensures
            r@ == self@.name,
    {
        self.name.clone()
    }

    /// The account's tokens, in the order they were added.
    pub fn tokens(&self) -> (r: &Vec<Token>)
        ensures
            token_views(r@) == self@.active_tokens,
    {
        &self.active_tokens
    }

    /// Whether the account holds a token with the contents of `token`.
    pub fn has_token(&self, token: &Token) -> (r: bool)
        ensures
            r == self@.active_tokens.contains(token@),
    {
        tokens_contain(&self.active_tokens, token)
    }

    /// An account with the same fields whose tokens are copies of these.
    pub fn duplicate(&self) -> (r: User)
        ensures
            r@ == self@,
    {
        let mut tokens: Vec<Token> = Vec::new();
        let mut i: usize = 0;
        while i < self.active_tokens.len()
            invariant
                i <= self.active_tokens.len(),
                token_views(tokens@) =~= token_views(self.active_tokens@).take(i as int),
            decreases self.active_tokens.len() - i,
        {
            let t = self.active_tokens[i].duplicate();
            let ghost tv = t@;
            let ghost before = tokens@;
            tokens.push(t);
            assert(tokens@ == before.push(t));
            assert(token_views(tokens@) =~= token_views(before).push(tv));
            assert(token_views(tokens@) =~= token_views(self.active_tokens@).take(i + 1));
            i = i + 1;
        }
        assert(token_views(self.active_tokens@).take(i as int) =~= token_views(
            self.active_tokens@,
        ));
        User {
            email: self.email.clone(),
            password: self.password.clone(),
            name: self.name.clone(),
            active_tokens: tokens,
        }
    }

    /// Drops every token whose contents `banned` lists, keeping the others in order.
    pub fn remove_tokens(&mut self, banned: &Vec<Token>)
        ensures
            final(self)@.email == old(self)@.email,
            final(self)@.password == old(self)@.password,
            final(self)@.name == old(self)@.name,
            final(self)@.active_tokens == without_tokens(
                old(self)@.active_tokens,
                token_views(banned@),
            ),
    {
        let ghost old_tokens = token_views(self.active_tokens@);
        let ghost ban = token_views(banned@);
        let ghost pred = |t: TokenView| !ban.contains(t);
        let mut kept: Vec<Token> = Vec::new();
        let mut i: usize = 0;
        while i < self.active_tokens.len()
            invariant
                i <= self.active_tokens.len(),
                old_tokens == token_views(self.active_tokens@),
                ban == token_views(banned@),
                pred == (|t: TokenView| !ban.contains(t)),
                token_views(kept@) =~= old_tokens.take(i as int).filter(pred),
            decreases self.active_tokens.len() - i,
        {
            let is_banned = tokens_contain(banned, &self.active_tokens[i]);
            assert(old_tokens.take(i + 1).drop_last() =~= old_tokens.take(i as int));
            assert(old_tokens.take(i + 1).last() == self.active_tokens@[i as int]@);
            reveal_with_fuel(Seq::filter, 1);
            if !is_banned {
                let t = self.active_tokens[i].duplicate();
                kept.push(t);
                assert(token_views(kept@) =~= token_views(kept@).drop_last().push(t@));
            }
            i = i + 1;
        }
        assert(old_tokens.take(i as int) =~= old_tokens);
        self.active_tokens = kept;
    }
}


/// `after` is `before` with the token `t` added, as `User::add_token` leaves it.
pub open spec fn adds_token(before: UserView, after: UserView, t: TokenView) -> bool {
    after == (UserView { active_tokens: before.active_tokens.push(t), ..before })
}

/// An account keeps its e-mail address, password and name over any number of added tokens,
/// and then holds its old tokens followed by the added ones in order.
pub proof fn lemma_added_tokens_keep_account(steps: Seq<UserView>, added: Seq<TokenView>)
    requires
        steps.len() == added.len() + 1,
        forall|i: int| 0 <= i < added.len() ==> adds_token(steps[i], steps[i + 1], #[trigger] added[i]),
    ensures
        steps.last().email == steps[0].email,
        steps.last().password == steps[0].password,
        steps.last().name == steps[0].name,
        steps.last().active_tokens == steps[0].active_tokens + added,
    decreases added.len(),
{
    if added.len() == 0 {
        assert(steps[0].active_tokens + added =~= steps[0].active_tokens);
    } else {
        let n = added.len() - 1;
        assert forall|i: int| 0 <= i < added.drop_last().len() implies adds_token(
            steps.drop_last()[i],
            steps.drop_last()[i + 1],
            #[trigger] added.drop_last()[i],
        ) by {
            assert(added.drop_last()[i] == added[i]);
        }
        lemma_added_tokens_keep_account(steps.drop_last(), added.drop_last());
        assert(adds_token(steps[n], steps[n + 1], added[n]));
        assert(steps[0].active_tokens + added =~= (steps[0].active_tokens + added.drop_last()).push(
            added[n],
        ));
    }
}

} // verus!
