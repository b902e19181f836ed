//! Token types, tokens and bounded token pools, with the inline pool syntax
//! and the CSV ingestion of token types and pool assignments.
use vstd::prelude::*;
use vstd::string::*;

use crate::csv_text::{all_read, keyed_records, keyed_table, keyed_view, read_csv, csv_read};
use crate::fields::{
    clone_pairs, field, field_value, insert_if_absent, insert_if_blank, is_truthy, lookup, lookup_value, pairs_view, parse_bool,
};
use crate::text::{
    ascii_lower, ascii_lower_chars, chars_of, clone_opt, concat3, find_char, first_index,
    contains_string, kept_pieces, line_message, line_msg, opt_chars, owned, parse_bounded, parse_unsigned, slice_chars, split,
    split_trimmed, str_is, string_of, trim, trim_chars, trimmed,
};

verus! {

/// A kind of token of a game, with its Font Awesome icon.
#[derive(Clone, Debug, PartialEq, Eq)]
pub struct TokenType {
    pub id: String,
    pub game_id: String,
    pub name: String,
    pub description: Option<String>,
    pub background: Option<String>,
    pub icon: String,
    pub icon_color: Option<String>,
}

/// A token can optionally represent, or be created by, a card.
#[derive(Clone, Debug, PartialEq, Eq)]
pub struct Token {
    pub id: String,
    pub game_id: String,
    pub token_type_id: String,
    pub card_id: Option<String>,
}

/// Who owns a token pool.
#[derive(Clone, Copy, Debug, PartialEq, Eq)]
pub enum TokenPoolOwner {
    Player,
    Card,
    Creature,
    Zone,
    Battlefield,
}

/// A pool together with the owner it is assigned to.
#[derive(Clone, Debug, PartialEq, Eq)]
pub struct TokenPoolDefinition {
    pub pool: TokenPool,
    pub owner: TokenPoolOwner,
    pub owner_id: Option<String>,
}

/// A counter of tokens with optional bounds, shown with an icon.
#[derive(Clone, Debug, PartialEq, Eq)]
pub struct TokenPool {
    pub id: String,
    pub label: String,
    pub token_type_id: Option<String>,
    /// Complete Font Awesome class string.
    pub token: String,
    pub icon_color: Option<String>,
    pub background: Option<String>,
    pub starting: u32,
    pub count: u32,
    pub plus: u32,
    pub minus: u32,
    pub min: Option<u32>,
    pub max: Option<u32>,
    pub parent_id: Option<String>,
    pub active: bool,
}

/// What a token pool is made of, as mathematical values.
pub struct PoolShape {
    pub id: Seq<char>,
    pub label: Seq<char>,
    pub token_type_id: Option<Seq<char>>,
    pub token: Seq<char>,
    pub icon_color: Option<Seq<char>>,
    pub background: Option<Seq<char>>,
    pub starting: u32,
    pub count: u32,
    pub plus: u32,
    pub minus: u32,
    pub min: Option<u32>,
    pub max: Option<u32>,
    pub parent_id: Option<Seq<char>>,
    pub active: bool,
}

impl View for TokenPool {
    type V = PoolShape;

    open spec fn view(&self) -> PoolShape {
        PoolShape {
            id: self.id@,
            label: self.label@,
            token_type_id: opt_chars(self.token_type_id),
            token: self.token@,
            icon_color: opt_chars(self.icon_color),
            background: opt_chars(self.background),
            starting: self.starting,
            count: self.count,
            plus: self.plus,
            minus: self.minus,
            min: self.min,
            max: self.max,
            parent_id: opt_chars(self.parent_id),
            active: self.active,
        }
    }
}

/// The first rule a pool breaks, as the message that reports it, or `None`
/// for a valid pool.
pub open spec fn shape_problem(p: PoolShape) -> Option<Seq<char>> {
    if trim(p.id).len() == 0 {
        Some("Token pool id cannot be empty"@)
    } else if trim(p.label).len() == 0 {
        Some("Token pool '"@ + p.id + "' must have a label"@)
    } else if trim(p.token).len() == 0 {
        Some("Token pool '"@ + p.id + "' must have a Font Awesome icon"@)
    } else if p.plus == 0 || p.minus == 0 {
        Some("Token pool '"@ + p.id + "' plus and minus must be greater than zero"@)
    } else if p.parent_id == Some(p.id) {
        Some("Token pool '"@ + p.id + "' cannot be its own parent"@)
    } else if p.min is Some && p.max is Some && p.min->0 > p.max->0 {
        Some("Token pool '"@ + p.id + "' has min greater than max"@)
    } else if p.min is Some && p.count < p.min->0 {
        Some("Token pool '"@ + p.id + "' starts below its min"@)
    } else if p.max is Some && p.count > p.max->0 {
        Some("Token pool '"@ + p.id + "' starts above its max"@)
    } else {
        None
    }
}

/// The first rule a pool breaks, or `None` for a valid pool.
pub open spec fn pool_problem(p: TokenPool) -> Option<Seq<char>> {
    shape_problem(p@)
}

/// A pool that breaks none of the rules of `TokenPool::validate`.
pub open spec fn pool_valid(p: TokenPool) -> bool {
    pool_problem(p) is None
}

/// Two pools that differ at most in their count.
pub open spec fn same_but_count(a: TokenPool, b: TokenPool) -> bool {
    a == TokenPool { count: a.count, ..b }
}

/// The error message of `add_tokens` for `amount`, or `None` when it succeeds.
pub open spec fn add_problem(p: TokenPool, amount: u32) -> Option<Seq<char>> {
    if p.count + amount > u32::MAX {
        Some("Token pool '"@ + p.id@ + "' overflowed"@)
    } else if p.max is Some && p.count + amount > p.max->0 {
        Some("Token pool '"@ + p.id@ + "' cannot exceed max"@)
    } else {
        None
    }
}

/// The error message of `remove_tokens` for `amount`, or `None` when it
/// succeeds.
pub open spec fn remove_problem(p: TokenPool, amount: u32) -> Option<Seq<char>> {
    if p.count < amount {
        Some("Token pool '"@ + p.id@ + "' cannot go below zero"@)
    } else if p.min is Some && p.count - amount < p.min->0 {
        Some("Token pool '"@ + p.id@ + "' cannot go below min"@)
    } else {
        None
    }
}

/// The pool with `amount` more tokens.
pub open spec fn added(p: TokenPool, amount: u32) -> TokenPool {
    TokenPool { count: (p.count + amount) as u32, ..p }
}

/// The pool with `amount` fewer tokens.
pub open spec fn removed(p: TokenPool, amount: u32) -> TokenPool {
    TokenPool { count: (p.count - amount) as u32, ..p }
}

impl TokenPool {
    /// A pool of no tokens, inactive, without bounds, stepping by one.
    pub fn new(id: &str, label: &str, token: &str) -> (p: Self)
        ensures
            p.id@ == id@,
            p.label@ == label@,
            p.token@ == token@,
            p.token_type_id is None,
            p.icon_color is None,
            p.background is None,
            p.starting == 0,
            p.count == 0,
            p.plus == 1,
            p.minus == 1,
            p.min is None,
            p.max is None,
            p.parent_id is None,
            !p.active,
    {
        TokenPool {
            id: owned(id),
            label: owned(label),
            token_type_id: None,
            token: owned(token),
            icon_color: None,
            background: None,
            starting: 0,
            count: 0,
            plus: 1,
            minus: 1,
            min: None,
            max: None,
            parent_id: None,
            active: false,
        }
    }

    /// A copy of the pool.
    pub fn duplicate(&self) -> (r: Self)
        ensures
            r == *self,
    {
        TokenPool {
            id: self.id.clone(),
            label: self.label.clone(),
            token_type_id: clone_opt(&self.token_type_id),
            token: self.token.clone(),
            icon_color: clone_opt(&self.icon_color),
            background: clone_opt(&self.background),
            starting: self.starting,
            count: self.count,
            plus: self.plus,
            minus: self.minus,
            min: self.min,
            max: self.max,
            parent_id: clone_opt(&self.parent_id),
            active: self.active,
        }
    }

    /// Checks the rules every pool keeps: a non-blank id, label and icon,
    /// steps above zero, no parent of its own, and a count within bounds
    /// that are in order.
    pub fn validate(&self) -> (r: Result<(), String>)
        ensures
            r is Ok <==> pool_valid(*self),
            r matches Err(m) ==> pool_problem(*self) == Some(m@),
    {
        let id = self.id.as_str();
        if trimmed(id).as_str().is_empty() {
            return Err(owned("Token pool id cannot be empty"));
        }
        if trimmed(self.label.as_str()).as_str().is_empty() {
            return Err(concat3("Token pool '", id, "' must have a label"));
        }
        if trimmed(self.token.as_str()).as_str().is_empty() {
            return Err(concat3("Token pool '", id, "' must have a Font Awesome icon"));
        }
        if self.plus == 0 || self.minus == 0 {
            return Err(
                concat3("Token pool '", id, "' plus and minus must be greater than zero"),
            );
        }
        if let Some(parent) = &self.parent_id {
            if str_is(parent.as_str(), id) {
                return Err(concat3("Token pool '", id, "' cannot be its own parent"));
            }
        }
        if let (Some(min), Some(max)) = (self.min, self.max) {
            if min > max {
                return Err(concat3("Token pool '", id, "' has min greater than max"));
            }
        }
        if let Some(min) = self.min {
            if self.count < min {
                return Err(concat3("Token pool '", id, "' starts below its min"));
            }
        }
        if let Some(max) = self.max {
            if self.count > max {
                return Err(concat3("Token pool '", id, "' starts above its max"));
            }
        }
        Ok(())
    }

    /// A pool with the given bounds that starts at `count`, checked by
    /// `validate`.
    pub fn configured(
        id: &str,
        label: &str,
        token: &str,
        background: Option<String>,
        count: u32,
        min: Option<u32>,
        max: Option<u32>,
        active: bool,
    ) -> (r: Result<Self, String>)
        ensures
            ({
                let p = TokenPool {
                    id: r->Ok_0.id,
                    label: r->Ok_0.label,
                    token: r->Ok_0.token,
                    token_type_id: None,
                    icon_color: None,
                    background: background,
                    starting: count,
                    count: count,
                    plus: 1,
                    minus: 1,
                    min: min,
                    max: max,
                    parent_id: None,
                    active: active,
                };
                r is Ok ==> r->Ok_0 == p && p.id@ == id@ && p.label@ == label@ && p.token@
                    == token@ && pool_valid(p)
            }),
            r matches Err(m) ==> exists|p: TokenPool|
                p.id@ == id@ && p.label@ == label@ && p.token@ == token@ && p.token_type_id is None
                    && p.icon_color is None && p.background == background && p.starting == count
                    && p.count == count && p.plus == 1 && p.minus == 1 && p.min == min && p.max
                    == max && p.parent_id is None && p.active == active && pool_problem(p) == Some(
                    m@,
                ),
    {
        let mut pool = Self::new(id, label, token);
        pool.background = background;
        pool.starting = count;
        pool.count = count;
        pool.min = min;
        pool.max = max;
        pool.active = active;
        match pool.validate() {
            Ok(()) => Ok(pool),
            Err(m) => Err(m),
        }
    }

    /// The Font Awesome class string of the pool's icon.
    pub fn token(&self) -> (r: &str)
        ensures
            r@ == self.token@,
    {
        self.token.as_str()
    }

    /// The background of the pool's surface, if any.
    pub fn background(&self) -> (r: Option<&str>)
        ensures
            r matches Some(b) ==> self.background matches Some(s) && b@ == s@,
            r is None <==> self.background is None,
    {
        match &self.background {
            Some(b) => Some(b.as_str()),
            None => None,
        }
    }

    /// Turns the pool on or off.
    pub fn set_active(&mut self, active: bool)
        ensures
            *final(self) == (TokenPool { active, ..*old(self) }),
    {
        self.active = active;
    }

    /// Adds `amount` tokens unless the count would overflow or pass the max.
    pub fn add_tokens(&mut self, amount: u32) -> (r: Result<(), String>)
        ensures
            r is Ok <==> add_problem(*old(self), amount) is None,
            r matches Err(m) ==> add_problem(*old(self), amount) == Some(m@),
            r is Ok ==> *final(self) == added(*old(self), amount),
            r is Err ==> *final(self) == *old(self),
    {
        let next = match self.count.checked_add(amount) {
            Some(n) => n,
            None => {
                return Err(concat3("Token pool '", self.id.as_str(), "' overflowed"));
            },
        };
        if let Some(max) = self.max {
            if next > max {
                return Err(concat3("Token pool '", self.id.as_str(), "' cannot exceed max"));
            }
        }
        self.count = next;
        Ok(())
    }

    /// Removes `amount` tokens unless the count would drop below zero or
    /// below the min.
    pub fn remove_tokens(&mut self, amount: u32) -> (r: Result<(), String>)
        ensures
            r is Ok <==> remove_problem(*old(self), amount) is None,
            r matches Err(m) ==> remove_problem(*old(self), amount) == Some(m@),
            r is Ok ==> *final(self) == removed(*old(self), amount),
            r is Err ==> *final(self) == *old(self),
    {
        let next = match self.count.checked_sub(amount) {
            Some(n) => n,
            None => {
                return Err(concat3("Token pool '", self.id.as_str(), "' cannot go below zero"));
            },
        };
        if let Some(min) = self.min {
            if next < min {
                return Err(concat3("Token pool '", self.id.as_str(), "' cannot go below min"));
            }
        }
        self.count = next;
        Ok(())
    }
}


/// `optional_number`: the number under `key`, or the message for a value
/// that is not a `u32`.
pub open spec fn number_field(f: Seq<(Seq<char>, Seq<char>)>, key: Seq<char>) -> Result<
    Option<u32>,
    Seq<char>,
> {
    match field(f, key) {
        None => Ok(None),
        Some(s) => match parse_unsigned(s, u32::MAX as nat) {
            Some(n) => Ok(Some(n as u32)),
            None => Err("Invalid token pool "@ + key + " '"@ + s + "'"@),
        },
    }
}

/// A number field with a default for when it is absent.
pub open spec fn number_or(r: Result<Option<u32>, Seq<char>>, d: u32) -> Result<u32, Seq<char>> {
    match r {
        Err(e) => Err(e),
        Ok(Some(n)) => Ok(n),
        Ok(None) => Ok(d),
    }
}

/// The starting count: `starting`, else `count`, else zero.
pub open spec fn starting_field(f: Seq<(Seq<char>, Seq<char>)>) -> Result<u32, Seq<char>> {
    match number_field(f, "starting"@) {
        Err(e) => Err(e),
        Ok(Some(n)) => Ok(n),
        Ok(None) => number_or(number_field(f, "count"@), 0),
    }
}

/// The first of two optional values that is present.
pub open spec fn first_some(a: Option<Seq<char>>, b: Option<Seq<char>>) -> Option<Seq<char>> {
    if a is Some {
        a
    } else {
        b
    }
}

/// The pool that a record of named fields describes, before its rules are
/// checked: `label` defaults to the id, the icon (`token` or `icon`) to the
/// label, the starting count (`starting` or `count`) to zero, `plus` and
/// `minus` to one; `min`, `max`, `parent_id` (or `parent`) are optional and
/// `active` is set by a truthy value.
pub open spec fn shape_from_fields(f: Seq<(Seq<char>, Seq<char>)>) -> Result<PoolShape, Seq<char>> {
    match field(f, "id"@) {
        None => Err("Token pool is missing required id"@),
        Some(id) => {
            let label = match field(f, "label"@) {
                Some(l) => l,
                None => id,
            };
            let token = match first_some(field(f, "token"@), field(f, "icon"@)) {
                Some(t) => t,
                None => label,
            };
            let starting = starting_field(f);
            let plus = number_or(number_field(f, "plus"@), 1);
            let minus = number_or(number_field(f, "minus"@), 1);
            let min = number_field(f, "min"@);
            let max = number_field(f, "max"@);
            if starting is Err {
                Err(starting->Err_0)
            } else if plus is Err {
                Err(plus->Err_0)
            } else if minus is Err {
                Err(minus->Err_0)
            } else if min is Err {
                Err(min->Err_0)
            } else if max is Err {
                Err(max->Err_0)
            } else {
                Ok(
                    PoolShape {
                        id,
                        label,
                        token_type_id: field(f, "token_type_id"@),
                        token,
                        icon_color: field(f, "icon_color"@),
                        background: field(f, "background"@),
                        starting: starting->Ok_0,
                        count: starting->Ok_0,
                        plus: plus->Ok_0,
                        minus: minus->Ok_0,
                        min: min->Ok_0,
                        max: max->Ok_0,
                        parent_id: first_some(field(f, "parent_id"@), field(f, "parent"@)),
                        active: match lookup(f, "active"@) {
                            Some(v) => is_truthy(v),
                            None => false,
                        },
                    },
                )
            }
        },
    }
}

/// The valid pool that a record of named fields describes, or the first
/// problem with it.
pub open spec fn pool_from_fields(f: Seq<(Seq<char>, Seq<char>)>) -> Result<PoolShape, Seq<char>> {
    match shape_from_fields(f) {
        Err(e) => Err(e),
        Ok(s) => match shape_problem(s) {
            Some(e) => Err(e),
            None => Ok(s),
        },
    }
}

/// One `key=value` part of the inline syntax: the key trimmed and
/// lower-cased, the value trimmed.
pub open spec fn inline_pair(part: Seq<char>) -> Result<(Seq<char>, Seq<char>), Seq<char>> {
    let k = first_index(part, '=');
    if k < 0 {
        Err("Invalid token pool part '"@ + part + "'"@)
    } else {
        Ok((ascii_lower(trim(part.take(k))), trim(part.skip(k + 1))))
    }
}

/// The record of an inline pool's parts, or the first malformed part.
pub open spec fn inline_fields(parts: Seq<Seq<char>>) -> Result<Seq<(Seq<char>, Seq<char>)>, Seq<char>>
    decreases parts.len(),
{
    if parts.len() == 0 {
        Ok(Seq::empty())
    } else {
        match inline_fields(parts.drop_last()) {
            Err(e) => Err(e),
            Ok(f) => match inline_pair(parts.last()) {
                Err(e) => Err(e),
                Ok(kv) => Ok(f.push(kv)),
            },
        }
    }
}

pub proof fn lemma_inline_fields_err(ps: Seq<Seq<char>>, n: int)
    requires
        0 <= n <= ps.len(),
        inline_fields(ps.take(n)) is Err,
    ensures
        inline_fields(ps) == inline_fields(ps.take(n)),
    decreases ps.len(),
{
    if n < ps.len() {
        assert(ps.drop_last().take(n) =~= ps.take(n));
        lemma_inline_fields_err(ps.drop_last(), n);
    } else {
        assert(ps.take(n) =~= ps);
    }
}

/// The pool written in the inline syntax `key=value|key=value|...`.
pub open spec fn inline_pool(raw: Seq<char>) -> Result<PoolShape, Seq<char>> {
    match inline_fields(kept_pieces(split(raw, '|'))) {
        Err(e) => Err(e),
        Ok(f) => pool_from_fields(f),
    }
}

/// The pools of a `;`-separated list, or the first problem.
pub open spec fn inline_pool_list(pieces: Seq<Seq<char>>) -> Result<Seq<PoolShape>, Seq<char>>
    decreases pieces.len(),
{
    if pieces.len() == 0 {
        Ok(Seq::empty())
    } else {
        match inline_pool_list(pieces.drop_last()) {
            Err(e) => Err(e),
            Ok(ps) => match inline_pool(pieces.last()) {
                Err(e) => Err(e),
                Ok(p) => Ok(ps.push(p)),
            },
        }
    }
}

pub proof fn lemma_inline_pool_list_err(ps: Seq<Seq<char>>, n: int)
    requires
        0 <= n <= ps.len(),
        inline_pool_list(ps.take(n)) is Err,
    ensures
        inline_pool_list(ps) == inline_pool_list(ps.take(n)),
    decreases ps.len(),
{
    if n < ps.len() {
        assert(ps.drop_last().take(n) =~= ps.take(n));
        lemma_inline_pool_list_err(ps.drop_last(), n);
    } else {
        assert(ps.take(n) =~= ps);
    }
}

/// The views of a list of pools.
pub open spec fn pools_view(ps: Seq<TokenPool>) -> Seq<PoolShape> {
    ps.map_values(|p: TokenPool| p@)
}

/// `optional_number`.
fn optional_number(v: &Vec<(String, String)>, key: &str) -> (r: Result<Option<u32>, String>)
    ensures
        match r {
            Ok(n) => number_field(pairs_view(v@), key@) == Ok::<Option<u32>, Seq<char>>(n),
            Err(m) => number_field(pairs_view(v@), key@) == Err::<Option<u32>, Seq<char>>(m@),
        },
{
    match field_value(v, key) {
        None => Ok(None),
        Some(s) => {
            let c = chars_of(s.as_str());
            match parse_bounded(&c, 0xffff_ffff) {
                Some(n) => Ok(Some(n as u32)),
                None => {
                    let mut m = owned("Invalid token pool ");
                    m.append(key);
                    m.append(" '");
                    m.append(s.as_str());
                    m.append("'");
                    Err(m)
                },
            }
        },
    }
}

/// `number`: an optional number with a default.
fn number(v: &Vec<(String, String)>, key: &str, default: u32) -> (r: Result<u32, String>)
    ensures
        match r {
            Ok(n) => number_or(number_field(pairs_view(v@), key@), default) == Ok::<u32, Seq<char>>(n),
            Err(m) => number_or(number_field(pairs_view(v@), key@), default) == Err::<u32, Seq<char>>(m@),
        },
{
    match optional_number(v, key) {
        Err(m) => Err(m),
        Ok(Some(n)) => Ok(n),
        Ok(None) => Ok(default),
    }
}

/// Builds and checks the pool that a record of named fields describes.
pub fn pool_from_values(v: &Vec<(String, String)>) -> (r: Result<TokenPool, String>)
    ensures
        match r {
            Ok(p) => pool_from_fields(pairs_view(v@)) == Ok::<PoolShape, Seq<char>>(p@),
            Err(m) => pool_from_fields(pairs_view(v@)) == Err::<PoolShape, Seq<char>>(m@),
        },
        r matches Ok(p) ==> opt_chars(p.parent_id) == match field(pairs_view(v@), "parent_id"@) {
            Some(q) => Some(q),
            None => field(pairs_view(v@), "parent"@),
        } && Some(p.id@) == field(pairs_view(v@), "id"@),
{
    proof { crate::record_laws::law_pool_fields_take_their_keys(pairs_view(v@)); }
    let ghost f = pairs_view(v@);
    let id = match field_value(v, "id") {
        Some(id) => id,
        None => {
            return Err(owned("Token pool is missing required id"));
        },
    };
    let label = match field_value(v, "label") {
        Some(l) => l,
        None => id.clone(),
    };
    let token = match field_value(v, "token") {
        Some(t) => t,
        None => match field_value(v, "icon") {
            Some(t) => t,
            None => label.clone(),
        },
    };
    let starting = match optional_number(v, "starting") {
        Err(m) => {
            return Err(m);
        },
        Ok(Some(n)) => n,
        Ok(None) => match number(v, "count", 0) {
            Err(m) => {
                return Err(m);
            },
            Ok(n) => n,
        },
    };
    let plus = match number(v, "plus", 1) {
        Err(m) => {
            return Err(m);
        },
        Ok(n) => n,
    };
    let minus = match number(v, "minus", 1) {
        Err(m) => {
            return Err(m);
        },
        Ok(n) => n,
    };
    let min = match optional_number(v, "min") {
        Err(m) => {
            return Err(m);
        },
        Ok(n) => n,
    };
    let max = match optional_number(v, "max") {
        Err(m) => {
            return Err(m);
        },
        Ok(n) => n,
    };
    let parent_id = match field_value(v, "parent_id") {
        Some(p) => Some(p),
        None => field_value(v, "parent"),
    };
    let active = match lookup_value(v, "active") {
        Some(a) => parse_bool(a.as_str()),
        None => false,
    };
    let pool = TokenPool {
        id,
        label,
        token_type_id: field_value(v, "token_type_id"),
        token,
        icon_color: field_value(v, "icon_color"),
        background: field_value(v, "background"),
        starting,
        count: starting,
        plus,
        minus,
        min,
        max,
        parent_id,
        active,
    };
    assert(shape_from_fields(f) == Ok::<PoolShape, Seq<char>>(pool@));
    match pool.validate() {
        Ok(()) => Ok(pool),
        Err(m) => Err(m),
    }
}

impl TokenPool {
    /// Parses one pool written `key=value|key=value|...`.
    fn parse(raw: &[char]) -> (r: Result<Self, String>)
        ensures
            match r {
                Ok(p) => inline_pool(raw@) == Ok::<PoolShape, Seq<char>>(p@),
                Err(m) => inline_pool(raw@) == Err::<PoolShape, Seq<char>>(m@),
            },
    {
        let parts = split_trimmed(raw, '|');
        let ghost ps = kept_pieces(split(raw@, '|'));
        let mut values: Vec<(String, String)> = Vec::new();
        let mut i: usize = 0;
        assert(pairs_view(values@) =~= Seq::<(Seq<char>, Seq<char>)>::empty());
        assert(ps.subrange(0, 0) =~= Seq::<Seq<char>>::empty());
        while i < parts.len()
            invariant
                ps == kept_pieces(split(raw@, '|')),
                i <= parts@.len() == ps.len(),
                forall|k: int| 0 <= k < parts@.len() ==> #[trigger] parts@[k]@ == ps[k],
                inline_fields(ps.subrange(0, i as int)) == Ok::<
                    Seq<(Seq<char>, Seq<char>)>,
                    Seq<char>,
                >(pairs_view(values@)),
            decreases parts.len() - i,
        {
            assert(ps.subrange(0, i + 1).drop_last() =~= ps.subrange(0, i as int));
            let part = &parts[i];
            let ghost sub = ps.subrange(0, i + 1);
            assert(sub.last() == part@);
            match find_char(part, '=') {
                None => {
                    let s = string_of(part);
                    proof {
                        assert(inline_fields(sub) == Err::<Seq<(Seq<char>, Seq<char>)>, Seq<char>>(
                            "Invalid token pool part '"@ + part@ + "'"@,
                        ));
                        assert(ps.subrange(0, i + 1) =~= ps.take(i + 1));
                        lemma_inline_fields_err(ps, i + 1);
                    }
                    return Err(concat3("Invalid token pool part '", s.as_str(), "'"));
                },
                Some(k) => {
                    let key = slice_chars(part, 0, k);
                    let key = ascii_lower_chars(&trim_chars(&key));
                    let value = slice_chars(part, k + 1, part.len());
                    let value = trim_chars(&value);
                    assert(part@.take(k as int) =~= part@.subrange(0, k as int));
                    assert(part@.skip(k + 1) =~= part@.subrange(k + 1, part@.len() as int));
                    let ghost before = pairs_view(values@);
                    values.push((string_of(&key), string_of(&value)));
                    assert(pairs_view(values@) =~= before.push((key@, value@)));
                    assert(inline_pair(part@) == Ok::<(Seq<char>, Seq<char>), Seq<char>>(
                        (key@, value@),
                    ));
                    assert(inline_fields(sub) == Ok::<Seq<(Seq<char>, Seq<char>)>, Seq<char>>(
                        pairs_view(values@),
                    ));
                },
            }
            i += 1;
        }
        assert(ps.subrange(0, parts.len() as int) =~= ps);
        pool_from_values(&values)
    }

    /// Parses a `;`-separated list of pools in the inline syntax, skipping
    /// blank entries; the first malformed pool fails the whole list.
    pub fn parse_list(raw: &str) -> (r: Result<Vec<Self>, String>)
        ensures
            match r {
                Ok(ps) => inline_pool_list(kept_pieces(split(raw@, ';'))) == Ok::<
                    Seq<PoolShape>,
                    Seq<char>,
                >(pools_view(ps@)),
                Err(m) => inline_pool_list(kept_pieces(split(raw@, ';'))) == Err::<
                    Seq<PoolShape>,
                    Seq<char>,
                >(m@),
            },
    {
        let c = chars_of(raw);
        let pieces = split_trimmed(&c, ';');
        let ghost ps = kept_pieces(split(raw@, ';'));
        let mut pools: Vec<TokenPool> = Vec::new();
        let mut i: usize = 0;
        assert(pools_view(pools@) =~= Seq::<PoolShape>::empty());
        assert(ps.subrange(0, 0) =~= Seq::<Seq<char>>::empty());
        while i < pieces.len()
            invariant
                ps == kept_pieces(split(raw@, ';')),
                i <= pieces@.len() == ps.len(),
                forall|k: int| 0 <= k < pieces@.len() ==> #[trigger] pieces@[k]@ == ps[k],
                inline_pool_list(ps.subrange(0, i as int)) == Ok::<Seq<PoolShape>, Seq<char>>(
                    pools_view(pools@),
                ),
            decreases pieces.len() - i,
        {
            assert(ps.subrange(0, i + 1).drop_last() =~= ps.subrange(0, i as int));
            let ghost sub = ps.subrange(0, i + 1);
            assert(sub.last() == pieces@[i as int]@);
            match Self::parse(&pieces[i]) {
                Err(m) => {
                    proof {
                        assert(inline_pool_list(sub) is Err);
                        assert(ps.subrange(0, i + 1) =~= ps.take(i + 1));
                        lemma_inline_pool_list_err(ps, i + 1);
                    }
                    return Err(m);
                },
                Ok(p) => {
                    let ghost before = pools_view(pools@);
                    pools.push(p);
                    assert(pools_view(pools@) =~= before.push(p@));
                    assert(inline_pool_list(sub) == Ok::<Seq<PoolShape>, Seq<char>>(
                        pools_view(pools@),
                    ));
                },
            }
            i += 1;
        }
        assert(ps.subrange(0, pieces.len() as int) =~= ps);
        Ok(pools)
    }
}


/// What a token type is made of, as mathematical values.
pub struct TokenTypeShape {
    pub id: Seq<char>,
    pub game_id: Seq<char>,
    pub name: Seq<char>,
    pub description: Option<Seq<char>>,
    pub background: Option<Seq<char>>,
    pub icon: Seq<char>,
    pub icon_color: Option<Seq<char>>,
}

impl View for TokenType {
    type V = TokenTypeShape;

    open spec fn view(&self) -> TokenTypeShape {
        TokenTypeShape {
            id: self.id@,
            game_id: self.game_id@,
            name: self.name@,
            description: opt_chars(self.description),
            background: opt_chars(self.background),
            icon: self.icon@,
            icon_color: opt_chars(self.icon_color),
        }
    }
}

/// A required field of a numbered CSV line.
pub open spec fn required_field(f: Seq<(Seq<char>, Seq<char>)>, key: Seq<char>, line: int) -> Result<
    Seq<char>,
    Seq<char>,
> {
    match field(f, key) {
        Some(v) => Ok(v),
        None => Err(line_msg(line, "'"@ + key + "' is required"@)),
    }
}

/// The key under which a token type is found: `{game_id}/{id}`.
pub open spec fn type_key(game_id: Seq<char>, id: Seq<char>) -> Seq<char> {
    game_id + "/"@ + id
}

/// The token types of the CSV records, in order, or the first problem: a
/// missing `game_id`, `id`, `name` or `icon`, or a `{game_id}/{id}` that an
/// earlier record already defined.
pub open spec fn token_type_rows(recs: Seq<(int, Seq<(Seq<char>, Seq<char>)>)>) -> Result<
    Seq<TokenTypeShape>,
    Seq<char>,
>
    decreases recs.len(),
{
    if recs.len() == 0 {
        Ok(Seq::empty())
    } else {
        match token_type_rows(recs.drop_last()) {
            Err(e) => Err(e),
            Ok(ts) => {
                let line = recs.last().0;
                let f = recs.last().1;
                let g = required_field(f, "game_id"@, line);
                let id = required_field(f, "id"@, line);
                let name = required_field(f, "name"@, line);
                let icon = required_field(f, "icon"@, line);
                if g is Err {
                    Err(g->Err_0)
                } else if id is Err {
                    Err(id->Err_0)
                } else if exists|k: int|
                    0 <= k < ts.len() && type_key(#[trigger] ts[k].game_id, ts[k].id) == type_key(
                        g->Ok_0,
                        id->Ok_0,
                    ) {
                    Err(line_msg(line, "duplicate token type '"@ + id->Ok_0 + "'"@))
                } else if name is Err {
                    Err(name->Err_0)
                } else if icon is Err {
                    Err(icon->Err_0)
                } else {
                    Ok(
                        ts.push(
                            TokenTypeShape {
                                id: id->Ok_0,
                                game_id: g->Ok_0,
                                name: name->Ok_0,
                                description: field(f, "description"@),
                                background: field(f, "background"@),
                                icon: icon->Ok_0,
                                icon_color: field(f, "icon_color"@),
                            },
                        ),
                    )
                }
            },
        }
    }
}

pub proof fn lemma_token_type_rows_err(recs: Seq<(int, Seq<(Seq<char>, Seq<char>)>)>, n: int)
    requires
        0 <= n <= recs.len(),
        token_type_rows(recs.take(n)) is Err,
    ensures
        token_type_rows(recs) == token_type_rows(recs.take(n)),
    decreases recs.len(),
{
    if n < recs.len() {
        assert(recs.drop_last().take(n) =~= recs.take(n));
        lemma_token_type_rows_err(recs.drop_last(), n);
    } else {
        assert(recs.take(n) =~= recs);
    }
}

/// The views of a list of token types.
pub open spec fn types_view(ts: Seq<TokenType>) -> Seq<TokenTypeShape> {
    ts.map_values(|t: TokenType| t@)
}

/// `required`: a field that must be present and not blank.
fn required(v: &Vec<(String, String)>, key: &str, line: usize) -> (r: Result<String, String>)
    ensures
        match r {
            Ok(s) => required_field(pairs_view(v@), key@, line as int) == Ok::<Seq<char>, Seq<char>>(s@),
            Err(m) => required_field(pairs_view(v@), key@, line as int) == Err::<Seq<char>, Seq<char>>(m@),
        },
{
    match field_value(v, key) {
        Some(s) => Ok(s),
        None => Err(line_message(line, concat3("'", key, "' is required").as_str())),
    }
}

/// The token types of keyed CSV records.
pub fn token_types_from_records(recs: &Vec<(usize, Vec<(String, String)>)>) -> (r: Result<Vec<TokenType>, String>)
    ensures
        match r {
            Ok(ts) => token_type_rows(keyed_view(recs@)) == Ok::<Seq<TokenTypeShape>, Seq<char>>(types_view(ts@)),
            Err(m) => token_type_rows(keyed_view(recs@)) == Err::<Seq<TokenTypeShape>, Seq<char>>(m@),
        },
{
    let ghost rv = keyed_view(recs@);
    let mut out: Vec<TokenType> = Vec::new();
    let mut seen: Vec<String> = Vec::new();
    let mut i: usize = 0;
    assert(rv.subrange(0, 0) =~= Seq::<(int, Seq<(Seq<char>, Seq<char>)>)>::empty());
    assert(types_view(out@) =~= Seq::<TokenTypeShape>::empty());
    while i < recs.len()
        invariant
            rv == keyed_view(recs@),
            i <= recs@.len(),
            token_type_rows(rv.subrange(0, i as int)) == Ok::<Seq<TokenTypeShape>, Seq<char>>(types_view(out@)),
            seen@.len() == out@.len(),
            forall|k: int| 0 <= k < seen@.len() ==> #[trigger] seen@[k]@ == type_key(out@[k].game_id@, out@[k].id@),
        decreases recs.len() - i,
    {
        let ghost sub = rv.subrange(0, i + 1);
        assert(sub.drop_last() =~= rv.subrange(0, i as int));
        assert(sub.last() == rv[i as int]);
        let line = recs[i].0;
        let v = &recs[i].1;
        let ghost f = pairs_view(v@);
        assert(rv[i as int] == (line as int, f));
        let g = match required(v, "game_id", line) {
            Ok(g) => g,
            Err(m) => {
                proof { lemma_token_type_rows_err(rv, i + 1); assert(rv.take(i + 1) =~= sub); }
                return Err(m);
            },
        };
        let id = match required(v, "id", line) {
            Ok(id) => id,
            Err(m) => {
                proof { lemma_token_type_rows_err(rv, i + 1); assert(rv.take(i + 1) =~= sub); }
                return Err(m);
            },
        };
        let key = concat3(g.as_str(), "/", id.as_str());
        let ghost ts = types_view(out@);
        if contains_string(&seen, key.as_str()) {
            proof {
                let k = choose|k: int| 0 <= k < seen@.len() && #[trigger] seen@[k]@ == key@;
                assert(type_key(ts[k].game_id, ts[k].id) == type_key(g@, id@));
                lemma_token_type_rows_err(rv, i + 1);
                assert(rv.take(i + 1) =~= sub);
            }
            return Err(line_message(line, concat3("duplicate token type '", id.as_str(), "'").as_str()));
        }
        assert(!exists|k: int| 0 <= k < ts.len() && type_key(#[trigger] ts[k].game_id, ts[k].id) == type_key(g@, id@)) by {
            if exists|k: int| 0 <= k < ts.len() && type_key(#[trigger] ts[k].game_id, ts[k].id) == type_key(g@, id@) {
                let k = choose|k: int| 0 <= k < ts.len() && type_key(#[trigger] ts[k].game_id, ts[k].id) == type_key(g@, id@);
                assert(seen@[k]@ == key@);
            }
        }
        let name = match required(v, "name", line) {
            Ok(n) => n,
            Err(m) => {
                proof { lemma_token_type_rows_err(rv, i + 1); assert(rv.take(i + 1) =~= sub); }
                return Err(m);
            },
        };
        let description = field_value(v, "description");
        let background = field_value(v, "background");
        let icon = match required(v, "icon", line) {
            Ok(n) => n,
            Err(m) => {
                proof { lemma_token_type_rows_err(rv, i + 1); assert(rv.take(i + 1) =~= sub); }
                return Err(m);
            },
        };
        let t = TokenType { id, game_id: g, name, description, background, icon, icon_color: field_value(v, "icon_color") };
        out.push(t);
        seen.push(key);
        assert(types_view(out@) =~= ts.push(t@));
        i += 1;
    }
    assert(rv.subrange(0, recs.len() as int) =~= rv);
    Ok(out)
}

/// Reads token types from CSV text with the columns `game_id`, `id`,
/// `name`, `icon` and the optional `description`, `background`,
/// `icon_color`.
pub fn ingest_token_types_csv(input: &str) -> (r: Result<Vec<TokenType>, String>)
    ensures
        !all_read(csv_read(input@, false)) ==> r is Err,
        all_read(csv_read(input@, false)) ==> match r {
            Ok(ts) => token_type_rows(keyed_records(csv_read(input@, false))) == Ok::<Seq<TokenTypeShape>, Seq<char>>(types_view(ts@)),
            Err(m) => token_type_rows(keyed_records(csv_read(input@, false))) == Err::<Seq<TokenTypeShape>, Seq<char>>(m@),
        },
{
    let table = read_csv(input, false);
    let recs = keyed_table(&table)?;
    token_types_from_records(&recs)
}


/// The owner a CSV value names, matched exactly.
pub open spec fn owner_named(s: Seq<char>) -> Option<TokenPoolOwner> {
    if s == "player"@ {
        Some(TokenPoolOwner::Player)
    } else if s == "card"@ {
        Some(TokenPoolOwner::Card)
    } else if s == "creature"@ {
        Some(TokenPoolOwner::Creature)
    } else if s == "zone"@ {
        Some(TokenPoolOwner::Zone)
    } else if s == "battlefield"@ {
        Some(TokenPoolOwner::Battlefield)
    } else {
        None
    }
}

/// The name an owner is written with (its `Debug` form).
pub open spec fn owner_label(o: TokenPoolOwner) -> Seq<char> {
    match o {
        TokenPoolOwner::Player => "Player"@,
        TokenPoolOwner::Card => "Card"@,
        TokenPoolOwner::Creature => "Creature"@,
        TokenPoolOwner::Zone => "Zone"@,
        TokenPoolOwner::Battlefield => "Battlefield"@,
    }
}

/// The last token type stored under a `{game_id}/{id}` key, as a map built
/// from the list answers.
pub open spec fn find_type(types: Seq<TokenTypeShape>, key: Seq<char>) -> Option<TokenTypeShape>
    decreases types.len(),
{
    if types.len() == 0 {
        None
    } else if type_key(types.last().game_id, types.last().id) == key {
        Some(types.last())
    } else {
        find_type(types.drop_last(), key)
    }
}

/// Stores `value` under `key` unless the record has that key already.
pub open spec fn or_insert(f: Seq<(Seq<char>, Seq<char>)>, key: Seq<char>, value: Seq<char>) -> Seq<(Seq<char>, Seq<char>)> {
    if lookup(f, key) is Some {
        f
    } else {
        f.push((key, value))
    }
}

/// Stores `value` under `key` unless the record has a non-blank value
/// there; a blank value counts as none.
pub open spec fn or_fill(f: Seq<(Seq<char>, Seq<char>)>, key: Seq<char>, value: Seq<char>) -> Seq<(Seq<char>, Seq<char>)> {
    if field(f, key) is Some {
        f
    } else {
        f.push((key, value))
    }
}

/// A record completed with what its token type supplies: the icon where the
/// record has none or a blank one, and the label (the type's name), the
/// background and the icon color where the record has no such column.
pub open spec fn with_type_defaults(f: Seq<(Seq<char>, Seq<char>)>, t: TokenTypeShape) -> Seq<(Seq<char>, Seq<char>)> {
    let f1 = or_fill(f, "icon"@, t.icon);
    let f2 = or_insert(f1, "label"@, t.name);
    let f3 = match t.background {
        Some(b) => or_insert(f2, "background"@, b),
        None => f2,
    };
    match t.icon_color {
        Some(c) => or_insert(f3, "icon_color"@, c),
        None => f3,
    }
}

/// A pool assignment as mathematical values.
pub struct DefinitionShape {
    pub pool: PoolShape,
    pub owner: TokenPoolOwner,
    pub owner_id: Option<Seq<char>>,
}

impl View for TokenPoolDefinition {
    type V = DefinitionShape;

    open spec fn view(&self) -> DefinitionShape {
        DefinitionShape { pool: self.pool@, owner: self.owner, owner_id: opt_chars(self.owner_id) }
    }
}

/// The key that makes an assignment unique:
/// `{game_id}/{owner}/{owner_id or *}/{pool id}`.
pub open spec fn assignment_key(game_id: Seq<char>, d: DefinitionShape) -> Seq<char> {
    game_id + "/"@ + owner_label(d.owner) + "/"@ + (match d.owner_id {
        Some(o) => o,
        None => "*"@,
    }) + "/"@ + d.pool.id
}

/// The assignment one CSV record describes, with its uniqueness key, or the
/// first problem with it.
pub open spec fn pool_row(line: int, f: Seq<(Seq<char>, Seq<char>)>, types: Seq<TokenTypeShape>) -> Result<
    (DefinitionShape, Seq<char>),
    Seq<char>,
> {
    let g = required_field(f, "game_id"@, line);
    let tt = required_field(f, "token_type_id"@, line);
    if g is Err {
        Err(g->Err_0)
    } else if tt is Err {
        Err(tt->Err_0)
    } else {
        let key = type_key(g->Ok_0, tt->Ok_0);
        match find_type(types, key) {
            None => Err(line_msg(line, "unknown token type '"@ + key + "'"@)),
            Some(t) => {
                let f2 = with_type_defaults(f, t);
                match pool_from_fields(f2) {
                    Err(e) => Err(line_msg(line, e)),
                    Ok(p) => {
                        let o = required_field(f2, "owner"@, line);
                        if o is Err {
                            Err(o->Err_0)
                        } else {
                            match owner_named(o->Ok_0) {
                                None => Err(
                                    line_msg(line, "unknown token pool owner '"@ + o->Ok_0 + "'"@),
                                ),
                                Some(owner) => {
                                    let d = DefinitionShape {
                                        pool: PoolShape { token_type_id: Some(tt->Ok_0), ..p },
                                        owner,
                                        owner_id: field(f2, "owner_id"@),
                                    };
                                    Ok((d, assignment_key(g->Ok_0, d)))
                                },
                            }
                        }
                    },
                }
            },
        }
    }
}

/// The assignments of the CSV records, in order, with their keys, or the
/// first problem; an assignment whose key an earlier one has is a problem.
pub open spec fn pool_rows(recs: Seq<(int, Seq<(Seq<char>, Seq<char>)>)>, types: Seq<TokenTypeShape>) -> Result<
    Seq<(DefinitionShape, Seq<char>)>,
    Seq<char>,
>
    decreases recs.len(),
{
    if recs.len() == 0 {
        Ok(Seq::empty())
    } else {
        match pool_rows(recs.drop_last(), types) {
            Err(e) => Err(e),
            Ok(ds) => match pool_row(recs.last().0, recs.last().1, types) {
                Err(e) => Err(e),
                Ok(dk) => if exists|k: int| 0 <= k < ds.len() && (#[trigger] ds[k]).1 == dk.1 {
                    Err(line_msg(recs.last().0, "duplicate token pool assignment"@))
                } else {
                    Ok(ds.push(dk))
                },
            },
        }
    }
}

pub proof fn lemma_pool_rows_err(recs: Seq<(int, Seq<(Seq<char>, Seq<char>)>)>, types: Seq<TokenTypeShape>, n: int)
    requires
        0 <= n <= recs.len(),
        pool_rows(recs.take(n), types) is Err,
    ensures
        pool_rows(recs, types) == pool_rows(recs.take(n), types),
    decreases recs.len(),
{
    if n < recs.len() {
        assert(recs.drop_last().take(n) =~= recs.take(n));
        lemma_pool_rows_err(recs.drop_last(), types, n);
    } else {
        assert(recs.take(n) =~= recs);
    }
}

/// The first assignment, in order, whose parent is not the id of any
/// assigned pool, reported as a message.
pub open spec fn unknown_parent(ds: Seq<DefinitionShape>, all: Seq<DefinitionShape>) -> Option<Seq<char>>
    decreases ds.len(),
{
    if ds.len() == 0 {
        None
    } else {
        match unknown_parent(ds.drop_last(), all) {
            Some(m) => Some(m),
            None => match ds.last().pool.parent_id {
                Some(p) => if exists|k: int| 0 <= k < all.len() && (#[trigger] all[k]).pool.id == p {
                    None
                } else {
                    Some("token pool '"@ + ds.last().pool.id + "' has unknown parent '"@ + p + "'"@)
                },
                None => None,
            },
        }
    }
}

/// The assignments of keyed pool records against the given token types.
pub open spec fn token_pool_assignments(recs: Seq<(int, Seq<(Seq<char>, Seq<char>)>)>, types: Seq<TokenTypeShape>) -> Result<
    Seq<DefinitionShape>,
    Seq<char>,
> {
    match pool_rows(recs, types) {
        Err(e) => Err(e),
        Ok(dks) => {
            let ds = dks.map_values(|dk: (DefinitionShape, Seq<char>)| dk.0);
            match unknown_parent(ds, ds) {
                Some(m) => Err(m),
                None => Ok(ds),
            }
        },
    }
}

/// The views of a list of assignments.
pub open spec fn definitions_view(ds: Seq<TokenPoolDefinition>) -> Seq<DefinitionShape> {
    ds.map_values(|d: TokenPoolDefinition| d@)
}

/// The last token type of the list with the given `{game_id}/{id}` key.
fn find_token_type<'a>(types: &'a [TokenType], key: &str) -> (r: Option<&'a TokenType>)
    ensures
        match r {
            Some(t) => find_type(types_view(types@), key@) == Some(t@),
            None => find_type(types_view(types@), key@) is None,
        },
{
    let mut i: usize = types.len();
    assert(types_view(types@).subrange(0, types@.len() as int) =~= types_view(types@));
    while i > 0
        invariant
            i <= types@.len(),
            find_type(types_view(types@), key@) == find_type(types_view(types@).subrange(0, i as int), key@),
        decreases i,
    {
        assert(types_view(types@).subrange(0, i as int).drop_last() =~= types_view(types@).subrange(0, i - 1));
        let t = &types[i - 1];
        let k = concat3(t.game_id.as_str(), "/", t.id.as_str());
        if str_is(k.as_str(), key) {
            return Some(t);
        }
        i -= 1;
    }
    None
}

/// The name an owner is written with.
fn owner_text(o: TokenPoolOwner) -> (r: &'static str)
    ensures
        r@ == owner_label(o),
{
    match o {
        TokenPoolOwner::Player => "Player",
        TokenPoolOwner::Card => "Card",
        TokenPoolOwner::Creature => "Creature",
        TokenPoolOwner::Zone => "Zone",
        TokenPoolOwner::Battlefield => "Battlefield",
    }
}

/// The assignment of one keyed pool record.
fn pool_definition(line: usize, values: &Vec<(String, String)>, types: &[TokenType]) -> (r: Result<(TokenPoolDefinition, String), String>)
    ensures
        match r {
            Ok((d, k)) => pool_row(line as int, pairs_view(values@), types_view(types@)) == Ok::<(DefinitionShape, Seq<char>), Seq<char>>((d@, k@)),
            Err(m) => pool_row(line as int, pairs_view(values@), types_view(types@)) == Err::<(DefinitionShape, Seq<char>), Seq<char>>(m@),
        },
{
    let game_id = required(values, "game_id", line)?;
    let token_type_id = required(values, "token_type_id", line)?;
    let key = concat3(game_id.as_str(), "/", token_type_id.as_str());
    let token_type = match find_token_type(types, key.as_str()) {
        Some(t) => t,
        None => {
            return Err(line_message(line, concat3("unknown token type '", key.as_str(), "'").as_str()));
        },
    };
    let mut v = clone_pairs(values);
    let ghost f = pairs_view(values@);
    insert_if_blank(&mut v, "icon", token_type.icon.as_str());
    insert_if_absent(&mut v, "label", token_type.name.as_str());
    if let Some(b) = &token_type.background {
        insert_if_absent(&mut v, "background", b.as_str());
    }
    if let Some(c) = &token_type.icon_color {
        insert_if_absent(&mut v, "icon_color", c.as_str());
    }
    assert(pairs_view(v@) == with_type_defaults(f, token_type@));
    let mut pool = match pool_from_values(&v) {
        Ok(p) => p,
        Err(e) => {
            return Err(line_message(line, e.as_str()));
        },
    };
    pool.token_type_id = Some(token_type_id);
    let owner_value = required(&v, "owner", line)?;
    let owner = if str_is(owner_value.as_str(), "player") {
        TokenPoolOwner::Player
    } else if str_is(owner_value.as_str(), "card") {
        TokenPoolOwner::Card
    } else if str_is(owner_value.as_str(), "creature") {
        TokenPoolOwner::Creature
    } else if str_is(owner_value.as_str(), "zone") {
        TokenPoolOwner::Zone
    } else if str_is(owner_value.as_str(), "battlefield") {
        TokenPoolOwner::Battlefield
    } else {
        return Err(line_message(line, concat3("unknown token pool owner '", owner_value.as_str(), "'").as_str()));
    };
    let owner_id = field_value(&v, "owner_id");
    let mut k = concat3(game_id.as_str(), "/", owner_text(owner));
    k.append("/");
    match &owner_id {
        Some(o) => k.append(o.as_str()),
        None => k.append("*"),
    }
    k.append("/");
    k.append(pool.id.as_str());
    let d = TokenPoolDefinition { pool, owner, owner_id };
    Ok((d, k))
}

/// Reads pool assignments from keyed CSV records: each record names a game,
/// a token type known to `types`, an owner and optionally an owner id; the
/// pool takes its icon, label, background and icon color from the token
/// type unless the record sets them. Assignments must be unique, and every
/// parent must be one of the assigned pools.
pub fn token_pools_from_records(recs: &Vec<(usize, Vec<(String, String)>)>, types: &[TokenType]) -> (r: Result<Vec<TokenPoolDefinition>, String>)
    ensures
        match r {
            Ok(ds) => token_pool_assignments(keyed_view(recs@), types_view(types@)) == Ok::<Seq<DefinitionShape>, Seq<char>>(definitions_view(ds@)),
            Err(m) => token_pool_assignments(keyed_view(recs@), types_view(types@)) == Err::<Seq<DefinitionShape>, Seq<char>>(m@),
        },
{
    let ghost rv = keyed_view(recs@);
    let ghost tv = types_view(types@);
    let mut out: Vec<TokenPoolDefinition> = Vec::new();
    let mut keys: Vec<String> = Vec::new();
    let ghost mut dks: Seq<(DefinitionShape, Seq<char>)> = Seq::empty();
    let mut i: usize = 0;
    assert(rv.subrange(0, 0) =~= Seq::<(int, Seq<(Seq<char>, Seq<char>)>)>::empty());
    while i < recs.len()
        invariant
            rv == keyed_view(recs@),
            tv == types_view(types@),
            i <= recs@.len(),
            pool_rows(rv.subrange(0, i as int), tv) == Ok::<Seq<(DefinitionShape, Seq<char>)>, Seq<char>>(dks),
            dks.len() == out@.len() == keys@.len(),
            forall|k: int| 0 <= k < dks.len() ==> #[trigger] dks[k] == (out@[k]@, keys@[k]@),
        decreases recs.len() - i,
    {
        let ghost sub = rv.subrange(0, i + 1);
        assert(sub.drop_last() =~= rv.subrange(0, i as int));
        assert(sub.last() == rv[i as int]);
        assert(rv[i as int] == (recs@[i as int].0 as int, pairs_view(recs@[i as int].1@)));
        match pool_definition(recs[i].0, &recs[i].1, types) {
            Err(m) => {
                proof { lemma_pool_rows_err(rv, tv, i + 1); assert(rv.take(i + 1) =~= sub); }
                return Err(m);
            },
            Ok((d, k)) => {
                if contains_string(&keys, k.as_str()) {
                    proof {
                        let j = choose|j: int| 0 <= j < keys@.len() && #[trigger] keys@[j]@ == k@;
                        assert(dks[j].1 == k@);
                        lemma_pool_rows_err(rv, tv, i + 1);
                        assert(rv.take(i + 1) =~= sub);
                    }
                    return Err(line_message(recs[i].0, "duplicate token pool assignment"));
                }
                assert(!exists|j: int| 0 <= j < dks.len() && (#[trigger] dks[j]).1 == k@) by {
                    if exists|j: int| 0 <= j < dks.len() && (#[trigger] dks[j]).1 == k@ {
                        let j = choose|j: int| 0 <= j < dks.len() && (#[trigger] dks[j]).1 == k@;
                        assert(keys@[j]@ == k@);
                    }
                }
                proof { dks = dks.push((d@, k@)); }
                out.push(d);
                keys.push(k);
            },
        }
        i += 1;
    }
    assert(rv.subrange(0, recs.len() as int) =~= rv);
    let ghost ds = dks.map_values(|dk: (DefinitionShape, Seq<char>)| dk.0);
    assert(ds =~= definitions_view(out@));
    let mut j: usize = 0;
    while j < out.len()
        invariant
            j <= out@.len(),
            ds == definitions_view(out@),
            ds == dks.map_values(|dk: (DefinitionShape, Seq<char>)| dk.0),
            pool_rows(rv, tv) == Ok::<Seq<(DefinitionShape, Seq<char>)>, Seq<char>>(dks),
            rv == keyed_view(recs@),
            tv == types_view(types@),
            unknown_parent(ds.subrange(0, j as int), ds) is None,
        decreases out.len() - j,
    {
        assert(ds.subrange(0, j + 1).drop_last() =~= ds.subrange(0, j as int));
        if let Some(parent) = &out[j].pool.parent_id {
            let mut found = false;
            let mut k: usize = 0;
            while k < out.len()
                invariant
                    k <= out@.len(),
                    ds == definitions_view(out@),
                    found == exists|m: int| 0 <= m < k && (#[trigger] ds[m]).pool.id == parent@,
                decreases out.len() - k,
            {
                assert(ds[k as int].pool.id == out@[k as int].pool.id@);
                if str_is(out[k].pool.id.as_str(), parent.as_str()) {
                    found = true;
                }
                k += 1;
            }
            if !found {
                proof {
                    assert(ds[j as int].pool.parent_id == Some(parent@));
                    assert(ds.subrange(0, j + 1).last() == ds[j as int]);
                    assert(unknown_parent(ds.subrange(0, j + 1), ds) == Some(
                        "token pool '"@ + ds[j as int].pool.id + "' has unknown parent '"@ + parent@ + "'"@,
                    ));
                    lemma_unknown_parent_prefix(ds, ds, j + 1);
                    assert(ds.take(j + 1) =~= ds.subrange(0, j + 1));
                }
                let mut m = concat3("token pool '", out[j].pool.id.as_str(), "' has unknown parent '");
                m.append(parent.as_str());
                m.append("'");
                return Err(m);
            }
        }
        j += 1;
    }
    assert(ds.subrange(0, out.len() as int) =~= ds);
    Ok(out)
}

pub proof fn lemma_unknown_parent_prefix(ds: Seq<DefinitionShape>, all: Seq<DefinitionShape>, n: int)
    requires
        0 <= n <= ds.len(),
        unknown_parent(ds.take(n), all) is Some,
    ensures
        unknown_parent(ds, all) == unknown_parent(ds.take(n), all),
    decreases ds.len(),
{
    if n < ds.len() {
        assert(ds.drop_last().take(n) =~= ds.take(n));
        lemma_unknown_parent_prefix(ds.drop_last(), all, n);
    } else {
        assert(ds.take(n) =~= ds);
    }
}

/// Reads pool assignments from CSV text; see `token_pools_from_records`.
pub fn ingest_token_pools_csv(input: &str, types: &[TokenType]) -> (r: Result<Vec<TokenPoolDefinition>, String>)
    ensures
        !all_read(csv_read(input@, false)) ==> r is Err,
        all_read(csv_read(input@, false)) ==> match r {
            Ok(ds) => token_pool_assignments(keyed_records(csv_read(input@, false)), types_view(types@)) == Ok::<Seq<DefinitionShape>, Seq<char>>(definitions_view(ds@)),
            Err(m) => token_pool_assignments(keyed_records(csv_read(input@, false)), types_view(types@)) == Err::<Seq<DefinitionShape>, Seq<char>>(m@),
        },
{
    let table = read_csv(input, false);
    let recs = keyed_table(&table)?;
    token_pools_from_records(&recs, types)
}

} // verus!
