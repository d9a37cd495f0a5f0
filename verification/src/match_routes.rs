//! Route patterns.
//!
//! A pattern is matched against a route character by character. A `:` in the
//! pattern opens a parameter: the pattern's characters up to the next `/`
//! are its name, the route's characters up to the next `/` its value. The
//! `/` behind the name and the `/` behind the value are passed over
//! together, unread. Anywhere else pattern and route must agree. The
//! character with code 0 stands for the end of either text.
//!
//! Two oddities belong to the format. A `:` inside a name is kept as part of
//! the name and hides the character behind it. A parameter without a name
//! binds nothing: its value is held back and put before the value of the
//! next parameter that has a name.

use vstd::prelude::*;

use crate::text::push_char;

verus! {

/// The parameters of a match: names with their values, each name once, in
/// the order in which the names first came up.
pub type Params = Vec<(String, String)>;

/// The character at position `i` of `text`, or the character with code 0
/// where the text has ended.
pub open spec fn symbol(text: Seq<char>, i: int) -> char {
    if 0 <= i < text.len() {
        text[i]
    } else {
        '\0'
    }
}

/// Whether `c` ends a segment.
pub open spec fn ends_segment(c: char) -> bool {
    c == '/' || c == '\0'
}

/// The position behind `i`, which is `i` itself where the text has ended.
pub open spec fn past(text: Seq<char>, i: int) -> int {
    if i < text.len() {
        i + 1
    } else {
        i
    }
}

/// The rest of a parameter's name, read from position `i` of the pattern.
pub open spec fn name_from(pattern: Seq<char>, i: int) -> Seq<char>
    decreases pattern.len() - i,
{
    if i < 0 || i >= pattern.len() || ends_segment(pattern[i]) {
        Seq::empty()
    } else if pattern[i] == ':' {
        seq![':'] + name_from(pattern, past(pattern, i + 1))
    } else {
        seq![pattern[i]] + name_from(pattern, i + 1)
    }
}

/// The position at which the name that is read from position `i` ends.
pub open spec fn name_end(pattern: Seq<char>, i: int) -> int
    decreases pattern.len() - i,
{
    if i < 0 || i >= pattern.len() || ends_segment(pattern[i]) {
        i
    } else if pattern[i] == ':' {
        name_end(pattern, past(pattern, i + 1))
    } else {
        name_end(pattern, i + 1)
    }
}

/// The position at which the value that is read from position `j` of the
/// route ends.
pub open spec fn value_end(route: Seq<char>, j: int) -> int
    decreases route.len() - j,
{
    if j < 0 || j >= route.len() || ends_segment(route[j]) {
        j
    } else {
        value_end(route, j + 1)
    }
}

/// The position of `name` among `params`, or the length of `params` where
/// it is not among them.
pub open spec fn position_of(params: Seq<(Seq<char>, Seq<char>)>, name: Seq<char>) -> int
    decreases params.len(),
{
    if params.len() == 0 {
        0
    } else if position_of(params.drop_last(), name) < params.len() - 1 {
        position_of(params.drop_last(), name)
    } else if params.last().0 == name {
        params.len() - 1
    } else {
        params.len() as int
    }
}

/// `params` with `name` bound to `value`: in place of an earlier value of
/// that name, or else at the end.
pub open spec fn bound(
    params: Seq<(Seq<char>, Seq<char>)>,
    name: Seq<char>,
    value: Seq<char>,
) -> Seq<(Seq<char>, Seq<char>)> {
    let at = position_of(params, name);
    if at < params.len() {
        params.update(at, (name, value))
    } else {
        params.push((name, value))
    }
}

/// How a match goes on once a parameter has been read: the name ended at
/// position `i` of the pattern and the value at position `j` of the route.
pub open spec fn after_parameter(
    pattern: Seq<char>,
    route: Seq<char>,
    i: int,
    j: int,
    name: Seq<char>,
    value: Seq<char>,
    params: Seq<(Seq<char>, Seq<char>)>,
) -> Option<Seq<(Seq<char>, Seq<char>)>>
    decreases pattern.len() - i, 2int,
{
    if i < 0 || i > pattern.len() {
        None
    } else if name.len() > 0 {
        matched_from(
            pattern,
            route,
            past(pattern, i),
            past(route, j),
            Seq::empty(),
            bound(params, name, value),
        )
    } else if symbol(pattern, i) == '\0' && symbol(route, j) == '\0' {
        Some(params)
    } else if symbol(pattern, i) != symbol(route, j) {
        None
    } else {
        matched_from(pattern, route, past(pattern, i), past(route, j), value, params)
    }
}

/// The outcome of matching the pattern from position `i` against the route
/// from position `j`, outside any parameter: `held` is the value that
/// nameless parameters have left behind, `params` what has been bound.
pub open spec fn matched_from(
    pattern: Seq<char>,
    route: Seq<char>,
    i: int,
    j: int,
    held: Seq<char>,
    params: Seq<(Seq<char>, Seq<char>)>,
) -> Option<Seq<(Seq<char>, Seq<char>)>>
    decreases pattern.len() - i, 1int,
{
    if i < 0 || i > pattern.len() {
        None
    } else if symbol(pattern, i) == ':' {
        if i < name_end(pattern, i + 1) <= pattern.len() {
            after_parameter(
                pattern,
                route,
                name_end(pattern, i + 1),
                value_end(route, j),
                name_from(pattern, i + 1),
                held + route.subrange(j, value_end(route, j)),
                params,
            )
        } else {
            None
        }
    } else if symbol(pattern, i) == '\0' && symbol(route, j) == '\0' {
        Some(params)
    } else if symbol(pattern, i) != symbol(route, j) {
        None
    } else {
        matched_from(pattern, route, past(pattern, i), past(route, j), held, params)
    }
}

/// The parameters with which `route` matches `pattern`, or `None` where it
/// does not match.
pub open spec fn route_match(pattern: Seq<char>, route: Seq<char>) -> Option<
    Seq<(Seq<char>, Seq<char>)>,
> {
    matched_from(pattern, route, 0, 0, Seq::empty(), Seq::empty())
}

/// The model of a list of parameters.
pub open spec fn params_model(params: Seq<(String, String)>) -> Seq<(Seq<char>, Seq<char>)> {
    Seq::new(params.len(), |i: int| (params[i].0@, params[i].1@))
}

/// A name ends at or behind the position from which it is read, and not
/// behind the end of the pattern.
pub proof fn lemma_name_end_bounds(pattern: Seq<char>, i: int)
    requires
        0 <= i <= pattern.len(),
    ensures
        i <= name_end(pattern, i) <= pattern.len(),
        ends_segment(symbol(pattern, name_end(pattern, i))),
    decreases pattern.len() - i,
{
    if i >= pattern.len() || ends_segment(pattern[i]) {
    } else if pattern[i] == ':' {
        lemma_name_end_bounds(pattern, past(pattern, i + 1));
    } else {
        lemma_name_end_bounds(pattern, i + 1);
    }
}

/// A value ends at or behind the position from which it is read, and not
/// behind the end of the route.
pub proof fn lemma_value_end_bounds(route: Seq<char>, j: int)
    requires
        0 <= j <= route.len(),
    ensures
        j <= value_end(route, j) <= route.len(),
        ends_segment(symbol(route, value_end(route, j))),
    decreases route.len() - j,
{
    if j >= route.len() || ends_segment(route[j]) {
    } else {
        lemma_value_end_bounds(route, j + 1);
    }
}

/// The position of a name that is not among the parameters is their
/// number; the position of one that is among them is that of its first
/// occurrence.
pub proof fn lemma_position_of(params: Seq<(Seq<char>, Seq<char>)>, name: Seq<char>, at: int)
    requires
        0 <= at <= params.len(),
        forall|k: int| 0 <= k < at ==> params[k].0 != name,
        at < params.len() ==> params[at].0 == name,
    ensures
        position_of(params, name) == at,
    decreases params.len(),
{
    if params.len() > 0 {
        let shorter = params.drop_last();
        if at < params.len() - 1 {
            lemma_position_of(shorter, name, at);
        } else {
            lemma_position_of(shorter, name, params.len() - 1);
        }
    }
}

/// No name occurs twice among `params`.
pub open spec fn names_apart(params: Seq<(Seq<char>, Seq<char>)>) -> bool {
    forall|a: int, b: int| 0 <= a < b < params.len() ==> params[a].0 != params[b].0
}

/// The position of a name is a position among the parameters or their
/// number; before it the name does not occur, and at it, if it is a
/// position, the name stands.
pub proof fn lemma_position_found(params: Seq<(Seq<char>, Seq<char>)>, name: Seq<char>)
    ensures
        0 <= position_of(params, name) <= params.len(),
        forall|k: int| 0 <= k < position_of(params, name) ==> params[k].0 != name,
        position_of(params, name) < params.len() ==> params[position_of(params, name)].0 == name,
    decreases params.len(),
{
    if params.len() > 0 {
        lemma_position_found(params.drop_last(), name);
        assert forall|k: int| 0 <= k < position_of(params, name) implies params[k].0 != name by {
            if k < params.len() - 1 {
                assert(params.drop_last()[k] == params[k]);
            }
        }
    }
}

/// Binding a name keeps the names apart.
pub proof fn lemma_bound_keeps_names_apart(
    params: Seq<(Seq<char>, Seq<char>)>,
    name: Seq<char>,
    value: Seq<char>,
)
    requires
        names_apart(params),
    ensures
        names_apart(bound(params, name, value)),
{
    lemma_position_found(params, name);
}

/// A match that goes on with names that are apart ends with names that are
/// apart.
pub proof fn lemma_match_keeps_names_apart(
    pattern: Seq<char>,
    route: Seq<char>,
    i: int,
    j: int,
    held: Seq<char>,
    params: Seq<(Seq<char>, Seq<char>)>,
)
    requires
        names_apart(params),
    ensures
        matched_from(pattern, route, i, j, held, params) matches Some(found) ==> names_apart(found),
    decreases pattern.len() - i, 1int,
{
    if i < 0 || i > pattern.len() {
    } else if symbol(pattern, i) == ':' {
        if i < name_end(pattern, i + 1) <= pattern.len() {
            lemma_parameter_keeps_names_apart(
                pattern,
                route,
                name_end(pattern, i + 1),
                value_end(route, j),
                name_from(pattern, i + 1),
                held + route.subrange(j, value_end(route, j)),
                params,
            );
        }
    } else if symbol(pattern, i) == '\0' && symbol(route, j) == '\0' {
    } else if symbol(pattern, i) != symbol(route, j) {
    } else {
        lemma_match_keeps_names_apart(pattern, route, past(pattern, i), past(route, j), held, params);
    }
}

/// The same of a match that goes on behind a parameter.
pub proof fn lemma_parameter_keeps_names_apart(
    pattern: Seq<char>,
    route: Seq<char>,
    i: int,
    j: int,
    name: Seq<char>,
    value: Seq<char>,
    params: Seq<(Seq<char>, Seq<char>)>,
)
    requires
        names_apart(params),
    ensures
        after_parameter(pattern, route, i, j, name, value, params) matches Some(found)
            ==> names_apart(found),
    decreases pattern.len() - i, 2int,
{
    if i < 0 || i > pattern.len() {
    } else if name.len() > 0 {
        lemma_bound_keeps_names_apart(params, name, value);
        lemma_match_keeps_names_apart(
            pattern,
            route,
            past(pattern, i),
            past(route, j),
            Seq::empty(),
            bound(params, name, value),
        );
    } else if symbol(pattern, i) == '\0' && symbol(route, j) == '\0' {
    } else if symbol(pattern, i) != symbol(route, j) {
    } else {
        lemma_match_keeps_names_apart(pattern, route, past(pattern, i), past(route, j), value, params);
    }
}

/// In the parameters of a match no name occurs twice.
pub proof fn lemma_names_of_a_match_are_apart(pattern: Seq<char>, route: Seq<char>)
    ensures
        route_match(pattern, route) matches Some(found) ==> names_apart(found),
{
    lemma_match_keeps_names_apart(pattern, route, 0, 0, Seq::empty(), Seq::empty());
}

/// The characters of `text`, in order.
fn characters(text: &str) -> (list: Vec<char>)
    ensures
        list@ == text@,
{
    let mut list: Vec<char> = Vec::new();
    for c in iter: text.chars()
        invariant
            iter.seq() == text@,
            list@ == text@.take(iter.index()),
    {
        list.push(c);
    }
    assert(text@.take(text@.len() as int) =~= text@);
    list
}

/// Binds `name` to `value`: in place of an earlier value of that name, or
/// else at the end.
fn bind(params: &mut Params, name: String, value: String)
    ensures
        params_model(final(params)@) == bound(params_model(old(params)@), name@, value@),
{
    let ghost before = params_model(params@);
    let mut at: usize = 0;
    while at < params.len()
        invariant
            at <= params.len(),
            before == params_model(params@),
            before == params_model(old(params)@),
            forall|k: int| 0 <= k < at ==> before[k].0 != name@,
        decreases params.len() - at,
    {
        if params[at].0 == name {
            proof {
                lemma_position_of(before, name@, at as int);
            }
            params.set(at, (name, value));
            assert(params_model(params@) =~= before.update(at as int, (name@, value@)));
            return ;
        }
        at += 1;
    }
    proof {
        lemma_position_of(before, name@, at as int);
    }
    params.push((name, value));
    assert(params_model(params@) =~= before.push((name@, value@)));
}

/// The matcher in the middle of its work.
struct Matcher {
    /// The position in the pattern.
    i: int,
    /// The position in the route.
    j: int,
    /// Whether a name is being read.
    parsing_name: bool,
    /// Whether a value is being read.
    parsing_value: bool,
    /// What has been read of the name.
    name: Seq<char>,
    /// What has been read of the value, behind what was held back.
    value: Seq<char>,
    /// What has been bound.
    params: Seq<(Seq<char>, Seq<char>)>,
}

/// What one turn of the matcher leads to.
enum Turn {
    /// The matcher goes on.
    Next(Matcher),
    /// The match is decided.
    Done(Option<Seq<(Seq<char>, Seq<char>)>>),
}

impl Matcher {
    /// What holds of the matcher before each turn.
    spec fn sound(self, pattern: Seq<char>, route: Seq<char>) -> bool {
        &&& 0 <= self.i <= pattern.len()
        &&& 0 <= self.j <= route.len()
        &&& !self.parsing_name && !self.parsing_value ==> self.name.len() == 0
        &&& (self.parsing_value && !self.parsing_name) ==> ends_segment(symbol(pattern, self.i))
        &&& (self.parsing_name && !self.parsing_value) ==> ends_segment(symbol(route, self.j))
    }

    /// How the match ends that the matcher is in the middle of.
    spec fn outcome(self, pattern: Seq<char>, route: Seq<char>) -> Option<
        Seq<(Seq<char>, Seq<char>)>,
    > {
        if self.parsing_name || self.parsing_value {
            let name_ends = if self.parsing_name {
                name_end(pattern, self.i)
            } else {
                self.i
            };
            let value_ends = if self.parsing_value {
                value_end(route, self.j)
            } else {
                self.j
            };
            after_parameter(
                pattern,
                route,
                name_ends,
                value_ends,
                if self.parsing_name {
                    self.name + name_from(pattern, self.i)
                } else {
                    self.name
                },
                self.value + route.subrange(self.j, value_ends),
                self.params,
            )
        } else {
            matched_from(pattern, route, self.i, self.j, self.value, self.params)
        }
    }

    /// How much work is left at most.
    spec fn work_left(self, pattern: Seq<char>, route: Seq<char>) -> int {
        2 * (pattern.len() - self.i) + 2 * (route.len() - self.j) + (if self.parsing_name {
            1int
        } else {
            0int
        }) + (if self.parsing_value {
            1int
        } else {
            0int
        }) + (if self.name.len() > 0 {
            1int
        } else {
            0int
        })
    }

    /// One turn: the matcher looks at one character of the pattern and one
    /// of the route.
    spec fn turn(self, pattern: Seq<char>, route: Seq<char>) -> Turn {
        let pattern_char = symbol(pattern, self.i);
        let route_char = symbol(route, self.j);
        let opens = pattern_char == ':';
        let in_name = self.parsing_name && !ends_segment(pattern_char);
        let in_value = (opens || self.parsing_value) && !ends_segment(route_char);
        let name = if in_name {
            self.name.push(pattern_char)
        } else {
            self.name
        };
        let value = if in_value {
            self.value.push(route_char)
        } else {
            self.value
        };
        let i = if in_name {
            past(pattern, self.i)
        } else {
            self.i
        };
        let i = if opens {
            past(pattern, i)
        } else {
            i
        };
        let j = if in_value {
            past(route, self.j)
        } else {
            self.j
        };
        if in_name || opens || in_value {
            Turn::Next(
                Matcher {
                    i,
                    j,
                    parsing_name: in_name || opens,
                    parsing_value: in_value,
                    name,
                    value,
                    params: self.params,
                },
            )
        } else if name.len() > 0 {
            Turn::Next(
                Matcher {
                    i: past(pattern, i),
                    j: past(route, j),
                    parsing_name: false,
                    parsing_value: false,
                    name: Seq::empty(),
                    value: Seq::empty(),
                    params: bound(self.params, name, value),
                },
            )
        } else if pattern_char == '\0' && route_char == '\0' {
            Turn::Done(Some(self.params))
        } else if pattern_char != route_char {
            Turn::Done(None)
        } else {
            Turn::Next(
                Matcher {
                    i: past(pattern, i),
                    j: past(route, j),
                    parsing_name: false,
                    parsing_value: false,
                    name,
                    value,
                    params: self.params,
                },
            )
        }
    }

    /// A turn changes nothing of how the match ends, and leaves less work.
    proof fn lemma_turn(self, pattern: Seq<char>, route: Seq<char>)
        requires
            self.sound(pattern, route),
        ensures
            match self.turn(pattern, route) {
                Turn::Next(next) => {
                    &&& next.sound(pattern, route)
                    &&& next.outcome(pattern, route) == self.outcome(pattern, route)
                    &&& 0 <= next.work_left(pattern, route) < self.work_left(pattern, route)
                },
                Turn::Done(result) => result == self.outcome(pattern, route),
            },
    {
        let pattern_char = symbol(pattern, self.i);
        let route_char = symbol(route, self.j);
        let opens = pattern_char == ':';
        let in_name = self.parsing_name && !ends_segment(pattern_char);
        let in_value = (opens || self.parsing_value) && !ends_segment(route_char);
        lemma_name_end_bounds(pattern, self.i);
        lemma_name_end_bounds(pattern, past(pattern, self.i));
        lemma_name_end_bounds(pattern, past(pattern, past(pattern, self.i)));
        lemma_value_end_bounds(route, self.j);
        lemma_value_end_bounds(route, past(route, self.j));
        // The value that the turn has read, with what is still to read of
        // it, is the value that was to read before.
        let value_ends = if self.parsing_value || opens {
            value_end(route, self.j)
        } else {
            self.j
        };
        if in_value {
            assert(self.value.push(route_char) + route.subrange(self.j + 1, value_ends)
                =~= self.value + route.subrange(self.j, value_ends));
        } else {
            assert(value_ends == self.j);
            assert(self.value + route.subrange(self.j, self.j) =~= self.value);
        }
        if self.parsing_name || self.parsing_value {
            // The same of the name.
            if opens {
                assert(self.name.push(':') + name_from(pattern, past(pattern, self.i + 1))
                    =~= self.name + name_from(pattern, self.i));
            } else if in_name {
                assert(self.name.push(pattern_char) + name_from(pattern, self.i + 1) =~= self.name
                    + name_from(pattern, self.i));
            } else {
                assert(self.name + Seq::<char>::empty() =~= self.name);
            }
        } else if opens {
            assert(self.name + name_from(pattern, self.i + 1) =~= name_from(pattern, self.i + 1));
            assert(Seq::<char>::empty() =~= self.name);
        }
    }
}

/// Matches `route` against `pattern`: the parameters of the match, in
/// which no name occurs twice, or `None` where the route does not match.
pub fn does_route_match(pattern: &str, route: &str) -> (found: Option<Params>)
    ensures
        found is Some <==> route_match(pattern@, route@) is Some,
        found matches Some(params) ==> params_model(params@) == route_match(pattern@, route@)->0,
        found matches Some(params) ==> names_apart(params_model(params@)),
{
    proof {
        lemma_names_of_a_match_are_apart(pattern@, route@);
    }
    let pattern_chars = characters(pattern);
    let route_chars = characters(route);
    let mut at_pattern: usize = 0;
    let mut at_route: usize = 0;
    let mut parsing_value = false;
    let mut parsing_name = false;
    let mut param_name = String::new();
    let mut param_value = String::new();
    let mut params: Params = Vec::new();
    let ghost p = pattern@;
    let ghost r = route@;
    let ghost mut state = Matcher {
        i: 0,
        j: 0,
        parsing_name: false,
        parsing_value: false,
        name: Seq::empty(),
        value: Seq::empty(),
        params: Seq::empty(),
    };
    assert(params_model(params@) =~= Seq::empty());
    loop
        invariant
            p == pattern@,
            r == route@,
            p == pattern_chars@,
            r == route_chars@,
            state.i == at_pattern,
            state.j == at_route,
            state.parsing_name == parsing_name,
            state.parsing_value == parsing_value,
            state.name == param_name@,
            state.value == param_value@,
            state.params == params_model(params@),
            state.sound(p, r),
            state.outcome(p, r) == route_match(p, r),
            route_match(p, r) matches Some(all) ==> names_apart(all),
        decreases state.work_left(p, r),
    {
        proof {
            state.lemma_turn(p, r);
        }
        let ghost turn = state.turn(p, r);
        let pattern_char = if at_pattern < pattern_chars.len() {
            pattern_chars[at_pattern]
        } else {
            '\0'
        };
        let route_char = if at_route < route_chars.len() {
            route_chars[at_route]
        } else {
            '\0'
        };
        let mut start_parsing_name = false;
        if pattern_char == ':' {
            parsing_value = true;
            start_parsing_name = true;
        }
        if pattern_char == '/' || pattern_char == '\0' {
            parsing_name = false;
        }
        if route_char == '/' || route_char == '\0' {
            parsing_value = false;
        }
        if parsing_name {
            push_char(&mut param_name, pattern_char);
            if at_pattern < pattern_chars.len() {
                at_pattern += 1;
            }
        }
        if parsing_value {
            push_char(&mut param_value, route_char);
            if at_route < route_chars.len() {
                at_route += 1;
            }
        }
        if start_parsing_name {
            parsing_name = true;
            if at_pattern < pattern_chars.len() {
                at_pattern += 1;
            }
        }
        if parsing_name || parsing_value {
            proof {
                state = turn->Next_0;
            }
            continue ;
        }
        if !param_name.as_str().is_empty() {
            bind(&mut params, param_name, param_value);
            param_name = String::new();
            param_value = String::new();
            if at_pattern < pattern_chars.len() {
                at_pattern += 1;
            }
            if at_route < route_chars.len() {
                at_route += 1;
            }
            proof {
                state = turn->Next_0;
            }
            continue ;
        }
        if pattern_char == '\0' && route_char == '\0' {
            return Some(params);
        }
        if pattern_char != route_char {
            return None;
        }
        if at_pattern < pattern_chars.len() {
            at_pattern += 1;
        }
        if at_route < route_chars.len() {
            at_route += 1;
        }
        proof {
            state = turn->Next_0;
        }
    }
}

/// The first of `patterns` that `route` matches, with the parameters of
/// the match.
pub fn find_matches(patterns: &Vec<String>, route: &str) -> (found: Option<(String, Params)>)
    ensures
        found is Some <==> first_match(patterns@, route@) < patterns.len(),
        found matches Some((pattern, params)) ==> {
            let k = first_match(patterns@, route@);
            &&& 0 <= k < patterns.len()
            &&& pattern@ == patterns[k]@
            &&& route_match(patterns[k]@, route@) is Some
            &&& params_model(params@) == route_match(patterns[k]@, route@)->0
        },
{
    let mut k: usize = 0;
    while k < patterns.len()
        invariant
            k <= patterns.len(),
            forall|x: int| 0 <= x < k ==> route_match(patterns[x]@, route@) is None,
        decreases patterns.len() - k,
    {
        match does_route_match(patterns[k].as_str(), route) {
            Some(params) => {
                proof {
                    lemma_first_match(patterns@, route@, k as int);
                }
                return Some((patterns[k].clone(), params));
            },
            None => {},
        }
        k += 1;
    }
    proof {
        lemma_first_match(patterns@, route@, k as int);
    }
    None
}

/// The position of the first of `patterns` that `route` matches, or their
/// number where it matches none.
pub open spec fn first_match(patterns: Seq<String>, route: Seq<char>) -> int
    decreases patterns.len(),
{
    if patterns.len() == 0 {
        0
    } else if first_match(patterns.drop_last(), route) < patterns.len() - 1 {
        first_match(patterns.drop_last(), route)
    } else if route_match(patterns.last()@, route) is Some {
        patterns.len() - 1
    } else {
        patterns.len() as int
    }
}

/// The first match is the position before which nothing matches and at
/// which, if it is a position, the route matches.
pub proof fn lemma_first_match(patterns: Seq<String>, route: Seq<char>, at: int)
    requires
        0 <= at <= patterns.len(),
        forall|k: int| 0 <= k < at ==> route_match(patterns[k]@, route) is None,
        at < patterns.len() ==> route_match(patterns[at]@, route) is Some,
    ensures
        first_match(patterns, route) == at,
    decreases patterns.len(),
{
    if patterns.len() > 0 {
        let shorter = patterns.drop_last();
        if at < patterns.len() - 1 {
            lemma_first_match(shorter, route, at);
        } else {
            lemma_first_match(shorter, route, patterns.len() - 1);
        }
    }
}

} // verus!
