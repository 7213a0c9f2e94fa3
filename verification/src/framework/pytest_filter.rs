//! Parse pytest group filter strings into typed components and compute
//! common-component hoisting across groups.

use vstd::prelude::*;

use crate::shell;
use crate::shell::shell_words_of;
use crate::text;
use crate::text::{decimal, trimmed, views};

verus! {

/// A typed component parsed from a pytest filter string.
#[derive(Debug, PartialEq, Eq, Hash)]
pub enum FilterComponent {
    /// `-m` / `--markexpr <expr>`
    Mark(String),
    /// `-k` / `--keyword <expr>`
    Keyword(String),
    /// `--deselect <prefix>`
    Deselect(String),
    /// `--ignore <path>`
    Ignore(String),
    /// `--ignore-glob <glob>`
    IgnoreGlob(String),
    /// Any unrecognized token.
    Unknown(String),
}

/// The kind of a component.
#[derive(Debug, Clone, Copy, PartialEq, Eq, Structural)]
pub enum FilterKind {
    Mark,
    Keyword,
    Deselect,
    Ignore,
    IgnoreGlob,
    Unknown,
}

/// A component as a mathematical value: its kind and its text.
pub type Component = (FilterKind, Seq<char>);

impl View for FilterComponent {
    type V = (FilterKind, Seq<char>);

    open spec fn view(&self) -> (FilterKind, Seq<char>) {
        match self {
            FilterComponent::Mark(v) => (FilterKind::Mark, v@),
            FilterComponent::Keyword(v) => (FilterKind::Keyword, v@),
            FilterComponent::Deselect(v) => (FilterKind::Deselect, v@),
            FilterComponent::Ignore(v) => (FilterKind::Ignore, v@),
            FilterComponent::IgnoreGlob(v) => (FilterKind::IgnoreGlob, v@),
            FilterComponent::Unknown(v) => (FilterKind::Unknown, v@),
        }
    }
}

/// The views of a sequence of components.
pub open spec fn component_views(v: Seq<FilterComponent>) -> Seq<Component> {
    Seq::new(v.len(), |i: int| v[i]@)
}

/// The canonical flag of a kind; an unrecognized token has none.
pub open spec fn flag_of(kind: FilterKind) -> Seq<char> {
    match kind {
        FilterKind::Mark => "-m"@,
        FilterKind::Keyword => "-k"@,
        FilterKind::Deselect => "--deselect"@,
        FilterKind::Ignore => "--ignore"@,
        FilterKind::IgnoreGlob => "--ignore-glob"@,
        FilterKind::Unknown => ""@,
    }
}

/// The kind of component that a token announces.
pub open spec fn kind_of(token: Seq<char>) -> FilterKind {
    if token == "-m"@ || token == "--markexpr"@ {
        FilterKind::Mark
    } else if token == "-k"@ || token == "--keyword"@ {
        FilterKind::Keyword
    } else if token == "--deselect"@ {
        FilterKind::Deselect
    } else if token == "--ignore"@ {
        FilterKind::Ignore
    } else if token == "--ignore-glob"@ {
        FilterKind::IgnoreGlob
    } else {
        FilterKind::Unknown
    }
}

impl FilterComponent {
    /// The canonical flag form of this component.
    pub fn to_cli_arg(&self) -> (r: (String, String))
        ensures
            r.0@ == flag_of(self@.0),
            r.1@ == self@.1,
    {
        match self {
            FilterComponent::Mark(v) => ("-m".to_owned(), v.clone()),
            FilterComponent::Keyword(v) => ("-k".to_owned(), v.clone()),
            FilterComponent::Deselect(v) => ("--deselect".to_owned(), v.clone()),
            FilterComponent::Ignore(v) => ("--ignore".to_owned(), v.clone()),
            FilterComponent::IgnoreGlob(v) => ("--ignore-glob".to_owned(), v.clone()),
            FilterComponent::Unknown(v) => ("".to_owned(), v.clone()),
        }
    }

    /// The kind of this component.
    pub fn kind(&self) -> (r: FilterKind)
        ensures
            r == self@.0,
    {
        match self {
            FilterComponent::Mark(_) => FilterKind::Mark,
            FilterComponent::Keyword(_) => FilterKind::Keyword,
            FilterComponent::Deselect(_) => FilterKind::Deselect,
            FilterComponent::Ignore(_) => FilterKind::Ignore,
            FilterComponent::IgnoreGlob(_) => FilterKind::IgnoreGlob,
            FilterComponent::Unknown(_) => FilterKind::Unknown,
        }
    }

    /// The text of this component.
    pub fn value(&self) -> (r: &str)
        ensures
            r@ == self@.1,
    {
        match self {
            FilterComponent::Mark(v) => v.as_str(),
            FilterComponent::Keyword(v) => v.as_str(),
            FilterComponent::Deselect(v) => v.as_str(),
            FilterComponent::Ignore(v) => v.as_str(),
            FilterComponent::IgnoreGlob(v) => v.as_str(),
            FilterComponent::Unknown(v) => v.as_str(),
        }
    }

    /// The component of a kind and a text.
    pub fn of(kind: FilterKind, value: String) -> (r: Self)
        ensures
            r@ == (kind, value@),
    {
        match kind {
            FilterKind::Mark => FilterComponent::Mark(value),
            FilterKind::Keyword => FilterComponent::Keyword(value),
            FilterKind::Deselect => FilterComponent::Deselect(value),
            FilterKind::Ignore => FilterComponent::Ignore(value),
            FilterKind::IgnoreGlob => FilterComponent::IgnoreGlob(value),
            FilterKind::Unknown => FilterComponent::Unknown(value),
        }
    }

    /// Whether two components have the same kind and text.
    pub fn same(&self, other: &FilterComponent) -> (b: bool)
        ensures
            b == (self@ == other@),
    {
        self.kind() == other.kind() && text::same(self.value(), other.value())
    }
}

impl Clone for FilterComponent {
    fn clone(&self) -> (r: Self)
        ensures
            r == *self,
    {
        match self {
            FilterComponent::Mark(v) => FilterComponent::Mark(v.clone()),
            FilterComponent::Keyword(v) => FilterComponent::Keyword(v.clone()),
            FilterComponent::Deselect(v) => FilterComponent::Deselect(v.clone()),
            FilterComponent::Ignore(v) => FilterComponent::Ignore(v.clone()),
            FilterComponent::IgnoreGlob(v) => FilterComponent::IgnoreGlob(v.clone()),
            FilterComponent::Unknown(v) => FilterComponent::Unknown(v.clone()),
        }
    }
}

/// Errors that can occur while parsing a filter string.
#[derive(Debug)]
pub enum ParseError {
    /// The filter string could not be split into words.
    Tokenization(String),
    /// A known flag was not followed by a value token.
    MissingFlagValue { flag: String, position: usize },
}

impl ParseError {
    /// What is said of the error.
    pub fn message(&self) -> (r: String)
        ensures
            r@ == (match self {
                ParseError::Tokenization(e) => "Failed to tokenize filter string: "@ + e@,
                ParseError::MissingFlagValue { flag, position } => "Flag '"@ + flag@
                    + "' at position "@ + decimal(*position as int) + " requires a value"@,
            }),
    {
        match self {
            ParseError::Tokenization(e) => {
                let mut s = "Failed to tokenize filter string: ".to_owned();
                s.append(e.as_str());
                s
            },
            ParseError::MissingFlagValue { flag, position } => {
                let mut s = "Flag '".to_owned();
                s.append(flag.as_str());
                s.append("' at position ");
                let p = text::decimal_u64(*position as u64);
                s.append(p.as_str());
                s.append(" requires a value");
                s
            },
        }
    }
}

/// The components of a sequence of tokens from the `i`th on: a flag takes the
/// token behind it as its value. A flag at the end has none; its position is
/// the error.
pub open spec fn components_from(tokens: Seq<Seq<char>>, i: int) -> Result<Seq<Component>, int>
    decreases tokens.len() - i,
{
    if i < 0 || i >= tokens.len() {
        Ok(Seq::empty())
    } else {
        let kind = kind_of(tokens[i]);
        if kind == FilterKind::Unknown {
            match components_from(tokens, i + 1) {
                Ok(rest) => Ok(seq![(kind, tokens[i])] + rest),
                Err(p) => Err(p),
            }
        } else if i + 1 >= tokens.len() {
            Err(i)
        } else {
            match components_from(tokens, i + 2) {
                Ok(rest) => Ok(seq![(kind, tokens[i + 1])] + rest),
                Err(p) => Err(p),
            }
        }
    }
}

fn token_kind(token: &str) -> (r: FilterKind)
    ensures
        r == kind_of(token@),
{
    if text::same(token, "-m") || text::same(token, "--markexpr") {
        FilterKind::Mark
    } else if text::same(token, "-k") || text::same(token, "--keyword") {
        FilterKind::Keyword
    } else if text::same(token, "--deselect") {
        FilterKind::Deselect
    } else if text::same(token, "--ignore") {
        FilterKind::Ignore
    } else if text::same(token, "--ignore-glob") {
        FilterKind::IgnoreGlob
    } else {
        FilterKind::Unknown
    }
}

/// Parses tokens into typed components.
pub fn parse_tokens(tokens: &Vec<String>) -> (r: Result<Vec<FilterComponent>, ParseError>)
    ensures
        match r {
            Ok(c) => components_from(views(tokens@), 0) == Ok::<Seq<Component>, int>(
                component_views(c@),
            ),
            Err(e) => e matches ParseError::MissingFlagValue { flag, position }
                && components_from(views(tokens@), 0) == Err::<Seq<Component>, int>(position as int)
                && position < tokens@.len() && flag@ == tokens@[position as int]@,
        },
{
    let mut out: Vec<FilterComponent> = Vec::new();
    let ghost all = views(tokens@);
    let n: usize = tokens.len();
    let mut i: usize = 0;
    proof {
        assert(component_views(out@) =~= Seq::<Component>::empty());
        match components_from(all, 0) {
            Ok(rest) => {
                assert(Seq::<Component>::empty() + rest =~= rest);
            },
            Err(_) => {},
        }
    }
    while i < n
        invariant
            0 <= i <= n,
            n == tokens@.len(),
            n == tokens.len(),
            all == views(tokens@),
            match components_from(all, i as int) {
                Ok(rest) => components_from(all, 0) == Ok::<Seq<Component>, int>(
                    component_views(out@) + rest,
                ),
                Err(p) => components_from(all, 0) == Err::<Seq<Component>, int>(p),
            },
        decreases n - i,
    {
        let kind = token_kind(tokens[i].as_str());
        let ghost before = out@;
        if kind == FilterKind::Unknown {
            out.push(FilterComponent::of(kind, tokens[i].clone()));
            proof {
                assert(component_views(out@) =~= component_views(before).push(
                    (kind, all[i as int]),
                ));
            }
            i = i + 1;
        } else {
            if i + 1 >= n {
                return Err(ParseError::MissingFlagValue { flag: tokens[i].clone(), position: i });
            }
            out.push(FilterComponent::of(kind, tokens[i + 1].clone()));
            proof {
                assert(component_views(out@) =~= component_views(before).push((kind, all[i + 1])));
            }
            i = i + 2;
        }
        proof {
            match components_from(all, i as int) {
                Ok(rest) => {
                    let x = out@[out@.len() - 1]@;
                    assert(component_views(before) + (seq![x] + rest) =~= component_views(out@)
                        + rest);
                },
                Err(_) => {},
            }
        }
    }
    proof {
        assert(component_views(out@) + Seq::<Component>::empty() =~= component_views(out@));
    }
    Ok(out)
}

/// Parses one group's filter string into typed components. Words are split as
/// a shell splits them.
pub fn parse_filter_string(filters: &str) -> (r: Result<Vec<FilterComponent>, ParseError>)
    ensures
        trimmed(filters@).len() == 0 ==> (r matches Ok(c) && c@.len() == 0),
        trimmed(filters@).len() > 0 ==> match shell_words_of(filters@) {
            None => r matches Err(ParseError::Tokenization(e)) && e@ == "missing closing quote"@,
            Some(tokens) => match r {
                Ok(c) => components_from(tokens, 0) == Ok::<Seq<Component>, int>(
                    component_views(c@),
                ),
                Err(e) => e matches ParseError::MissingFlagValue { flag, position }
                    && components_from(tokens, 0) == Err::<Seq<Component>, int>(position as int)
                    && position < tokens.len() && flag@ == tokens[position as int],
            },
        },
{
    let t = text::trim(filters);
    if t.as_str().is_empty() {
        return Ok(Vec::new());
    }
    match shell::split(filters) {
        Ok(tokens) => parse_tokens(&tokens),
        Err(e) => Err(ParseError::Tokenization(e)),
    }
}

/// No component is an unrecognized token.
pub open spec fn all_known(components: Seq<Component>) -> bool {
    forall|i: int| 0 <= i < components.len() ==> (#[trigger] components[i]).0 != FilterKind::Unknown
}

/// Whether a group is eligible for single-pass discovery: it has no
/// unrecognized token.
pub fn is_single_pass_eligible(components: &[FilterComponent]) -> (b: bool)
    ensures
        b == all_known(component_views(components@)),
{
    let mut i: usize = 0;
    while i < components.len()
        invariant
            0 <= i <= components@.len(),
            forall|k: int|
                0 <= k < i ==> (#[trigger] component_views(components@)[k]).0
                    != FilterKind::Unknown,
        decreases components@.len() - i,
    {
        if components[i].kind() == FilterKind::Unknown {
            proof {
                assert(component_views(components@)[i as int].0 == FilterKind::Unknown);
            }
            return false;
        }
        i = i + 1;
    }
    true
}

/// The component stands in every group.
pub open spec fn in_all(groups: Seq<Vec<FilterComponent>>, c: Component) -> bool {
    forall|g: int|
        0 <= g < groups.len() ==> component_views((#[trigger] groups[g])@).contains(c)
}

/// The components among the first `n` of the first group that stand in every
/// group.
pub open spec fn common(groups: Seq<Vec<FilterComponent>>, n: int) -> Seq<Component>
    decreases n,
{
    if n <= 0 || groups.len() == 0 || n > groups[0]@.len() {
        Seq::empty()
    } else if in_all(groups, groups[0]@[n - 1]@) {
        common(groups, n - 1).push(groups[0]@[n - 1]@)
    } else {
        common(groups, n - 1)
    }
}

fn holds(components: &Vec<FilterComponent>, c: &FilterComponent) -> (b: bool)
    ensures
        b == component_views(components@).contains(c@),
{
    let mut i: usize = 0;
    while i < components.len()
        invariant
            0 <= i <= components@.len(),
            forall|k: int| 0 <= k < i ==> #[trigger] component_views(components@)[k] != c@,
        decreases components@.len() - i,
    {
        if components[i].same(c) {
            proof {
                assert(component_views(components@)[i as int] == c@);
            }
            return true;
        }
        i = i + 1;
    }
    false
}

/// Hoists common filter components across all groups. There are none to hoist
/// from where a group has an unrecognized token; a component is hoisted
/// exactly where it stands in every group.
pub fn hoist_common_components(group_components: &[Vec<FilterComponent>]) -> (r: Option<
    Vec<FilterComponent>,
>)
    ensures
        match r {
            Some(h) => (forall|g: int|
                0 <= g < group_components@.len() ==> all_known(
                    component_views((#[trigger] group_components@[g])@),
                )) && component_views(h@) == (if group_components@.len() == 0 {
                Seq::empty()
            } else {
                common(group_components@, group_components@[0]@.len() as int)
            }),
            None => exists|g: int|
                0 <= g < group_components@.len() && !all_known(
                    component_views((#[trigger] group_components@[g])@),
                ),
        },
{
    if group_components.len() == 0 {
        let none: Vec<FilterComponent> = Vec::new();
        assert(component_views(none@) =~= Seq::<Component>::empty());
        return Some(none);
    }
    let mut g: usize = 0;
    while g < group_components.len()
        invariant
            0 <= g <= group_components@.len(),
            forall|k: int|
                0 <= k < g ==> all_known(component_views((#[trigger] group_components@[k])@)),
        decreases group_components@.len() - g,
    {
        if !is_single_pass_eligible(group_components[g].as_slice()) {
            assert(!all_known(component_views(group_components@[g as int]@)));
            return None;
        }
        g = g + 1;
    }
    let first = &group_components[0];
    let mut hoisted: Vec<FilterComponent> = Vec::new();
    let mut i: usize = 0;
    proof {
        assert(component_views(hoisted@) =~= Seq::<Component>::empty());
    }
    while i < first.len()
        invariant
            0 <= i <= first@.len(),
            group_components@.len() > 0,
            *first == group_components@[0],
            component_views(hoisted@) == common(group_components@, i as int),
        decreases first@.len() - i,
    {
        let mut everywhere = true;
        let mut k: usize = 1;
        let ghost c = first@[i as int]@;
        proof {
            assert(component_views(first@)[i as int] == c);
            assert(component_views(group_components@[0]@).contains(c));
        }
        while k < group_components.len()
            invariant
                0 <= i < first@.len(),
                *first == group_components@[0],
                c == first@[i as int]@,
                1 <= k <= group_components@.len(),
                component_views(group_components@[0]@).contains(c),
                everywhere <==> forall|m: int|
                    0 <= m < k ==> component_views((#[trigger] group_components@[m])@).contains(c),
            decreases group_components@.len() - k,
        {
            if !holds(&group_components[k], &first[i]) {
                everywhere = false;
            }
            k = k + 1;
        }
        let ghost before = hoisted@;
        if everywhere {
            hoisted.push(first[i].clone());
            proof {
                assert(component_views(hoisted@) =~= component_views(before).push(c));
            }
        }
        i = i + 1;
    }
    Some(hoisted)
}

/// The tokens of a sequence of components: flag and value, or the token alone
/// where it was not recognized.
pub open spec fn emitted(components: Seq<Component>) -> Seq<Seq<char>>
    decreases components.len(),
{
    if components.len() == 0 {
        Seq::empty()
    } else {
        let c = components.last();
        let earlier = emitted(components.drop_last());
        if flag_of(c.0).len() == 0 {
            earlier.push(c.1)
        } else {
            earlier.push(flag_of(c.0)).push(c.1)
        }
    }
}

/// Emits hoisted components back to a flat list of arguments.
pub fn emit_hoisted_args(components: &[FilterComponent]) -> (r: Vec<String>)
    ensures
        views(r@) == emitted(component_views(components@)),
{
    let mut args: Vec<String> = Vec::new();
    let mut i: usize = 0;
    proof {
        assert(component_views(components@).take(0) =~= Seq::<Component>::empty());
        assert(views(args@) =~= Seq::<Seq<char>>::empty());
    }
    while i < components.len()
        invariant
            0 <= i <= components@.len(),
            views(args@) == emitted(component_views(components@).take(i as int)),
        decreases components@.len() - i,
    {
        let ghost t = component_views(components@).take(i + 1);
        let ghost before = args@;
        proof {
            assert(t.drop_last() =~= component_views(components@).take(i as int));
            assert(t.last() == components@[i as int]@);
        }
        let (flag, value) = components[i].to_cli_arg();
        if flag.as_str().is_empty() {
            args.push(value);
            proof {
                assert(views(args@) =~= views(before).push(value@));
            }
        } else {
            args.push(flag);
            args.push(value);
            proof {
                assert(views(args@) =~= views(before).push(flag@).push(value@));
            }
        }
        i = i + 1;
    }
    proof {
        assert(component_views(components@).take(components@.len() as int) =~= component_views(
            components@,
        ));
    }
    args
}

/// Every hoisted component stands in every group, and every component that
/// does is hoisted.
pub proof fn hoisted_iff_in_all(groups: Seq<Vec<FilterComponent>>, c: Component)
    requires
        groups.len() > 0,
    ensures
        common(groups, groups[0]@.len() as int).contains(c) <==> in_all(groups, c),
{
    common_prefix(groups, groups[0]@.len() as int, c);
    if in_all(groups, c) {
        assert(component_views(groups[0]@).contains(c));
        let k = choose|k: int|
            0 <= k < component_views(groups[0]@).len() && component_views(groups[0]@)[k] == c;
        assert(groups[0]@[k]@ == c);
    }
}

proof fn common_prefix(groups: Seq<Vec<FilterComponent>>, n: int, c: Component)
    requires
        groups.len() > 0,
        0 <= n <= groups[0]@.len(),
    ensures
        common(groups, n).contains(c) <==> in_all(groups, c) && exists|k: int|
            0 <= k < n && (#[trigger] groups[0]@[k])@ == c,
    decreases n,
{
    if n > 0 {
        common_prefix(groups, n - 1, c);
        let earlier = common(groups, n - 1);
        let x = groups[0]@[n - 1]@;
        if in_all(groups, x) {
            let s = earlier.push(x);
            if s.contains(c) {
                let k = choose|k: int| 0 <= k < s.len() && s[k] == c;
                if k < earlier.len() {
                    assert(earlier[k] == c);
                }
            }
            if earlier.contains(c) {
                let k = choose|k: int| 0 <= k < earlier.len() && earlier[k] == c;
                assert(s[k] == c);
            }
            if x == c {
                assert(s[earlier.len() as int] == c);
            }
        }
    }
}

/// The text of each canonical flag, character by character.
proof fn flags_spelled()
    ensures
        "-m"@ == seq!['-', 'm'],
        "-k"@ == seq!['-', 'k'],
        "--markexpr"@.len() == 10,
        "--keyword"@.len() == 9,
        "--keyword"@[2] == 'k',
        "--deselect"@.len() == 10,
        "--deselect"@[2] == 'd',
        "--markexpr"@[2] == 'm',
        "--ignore"@.len() == 8,
        "--ignore-glob"@.len() == 13,
        ""@.len() == 0,
{
    reveal_strlit("-m");
    reveal_strlit("-k");
    reveal_strlit("--markexpr");
    reveal_strlit("--keyword");
    reveal_strlit("--deselect");
    reveal_strlit("--ignore");
    reveal_strlit("--ignore-glob");
    reveal_strlit("");
    assert("-m"@ =~= seq!['-', 'm']);
    assert("-k"@ =~= seq!['-', 'k']);
}

/// The flag of a kind announces that kind, and only an unrecognized token has
/// no flag.
proof fn flag_announces_kind(kind: FilterKind)
    ensures
        kind != FilterKind::Unknown ==> kind_of(flag_of(kind)) == kind && flag_of(kind).len() > 0,
        kind == FilterKind::Unknown ==> flag_of(kind).len() == 0,
{
    flags_spelled();
}

/// No unrecognized token is the text of a flag.
pub open spec fn unflagged(components: Seq<Component>) -> bool {
    forall|i: int|
        0 <= i < components.len() && (#[trigger] components[i]).0 == FilterKind::Unknown
            ==> kind_of(components[i].1) == FilterKind::Unknown
}

/// Emitting components and parsing the tokens gives them back, where no
/// unrecognized token is the text of a flag.
pub proof fn parse_undoes_emit(components: Seq<Component>)
    requires
        unflagged(components),
    ensures
        components_from(emitted(components), 0) == Ok::<Seq<Component>, int>(components),
{
    parse_behind(Seq::empty(), components);
    assert(Seq::<Seq<char>>::empty() + emitted(components) =~= emitted(components));
}

/// Whatever parsing yields, unrecognized tokens included, comes back from its
/// emitted tokens.
pub proof fn parsed_components_return(tokens: Seq<Seq<char>>, components: Seq<Component>)
    requires
        components_from(tokens, 0) == Ok::<Seq<Component>, int>(components),
    ensures
        components_from(emitted(components), 0) == Ok::<Seq<Component>, int>(components),
{
    parsed_is_unflagged(tokens, 0);
    parse_undoes_emit(components);
}

proof fn parsed_is_unflagged(tokens: Seq<Seq<char>>, i: int)
    ensures
        components_from(tokens, i) matches Ok(c) ==> unflagged(c),
    decreases tokens.len() + 1 - i,
{
    if 0 <= i < tokens.len() {
        let step: int = if kind_of(tokens[i]) == FilterKind::Unknown {
            1
        } else {
            2
        };
        parsed_is_unflagged(tokens, i + step);
        match (components_from(tokens, i), components_from(tokens, i + step)) {
            (Ok(c), Ok(rest)) => {
                assert forall|k: int|
                    0 <= k < c.len() && (#[trigger] c[k]).0 == FilterKind::Unknown implies kind_of(
                    c[k].1,
                ) == FilterKind::Unknown by {
                    if k > 0 {
                        assert(c[k] == rest[k - 1]);
                    }
                }
            },
            _ => {},
        }
    }
}

proof fn emitted_together(a: Seq<Component>, b: Seq<Component>)
    ensures
        emitted(a + b) == emitted(a) + emitted(b),
    decreases b.len(),
{
    if b.len() == 0 {
        assert(a + b =~= a);
        assert(emitted(a) + emitted(b) =~= emitted(a));
    } else {
        emitted_together(a, b.drop_last());
        assert((a + b).drop_last() =~= a + b.drop_last());
        assert((a + b).last() == b.last());
        assert(emitted(a + b) =~= emitted(a) + emitted(b));
    }
}

proof fn parse_behind(head: Seq<Seq<char>>, components: Seq<Component>)
    requires
        unflagged(components),
    ensures
        components_from(head + emitted(components), head.len() as int) == Ok::<
            Seq<Component>,
            int,
        >(components),
    decreases components.len(),
{
    let tokens = head + emitted(components);
    let at = head.len() as int;
    if components.len() == 0 {
        assert(components =~= Seq::<Component>::empty());
    } else {
        let c = components[0];
        let rest = components.subrange(1, components.len() as int);
        let one = seq![c];
        assert(components =~= one + rest);
        emitted_together(one, rest);
        assert(one.drop_last() =~= Seq::<Component>::empty());
        assert(emitted(one.drop_last()) =~= Seq::<Seq<char>>::empty());
        flag_announces_kind(c.0);
        assert forall|k: int|
            0 <= k < rest.len() && (#[trigger] rest[k]).0 == FilterKind::Unknown implies kind_of(
            rest[k].1,
        ) == FilterKind::Unknown by {
            assert(rest[k] == components[k + 1]);
        }
        let next = head + emitted(one);
        assert(tokens =~= next + emitted(rest));
        parse_behind(next, rest);
        if c.0 == FilterKind::Unknown {
            assert(emitted(one) =~= seq![c.1]);
            assert(tokens[at] == c.1);
            assert(next.len() == at + 1);
        } else {
            assert(emitted(one) =~= seq![flag_of(c.0), c.1]);
            assert(tokens[at] == flag_of(c.0));
            assert(tokens[at + 1] == c.1);
            assert(next.len() == at + 2);
        }
    }
}

/// Every flag announces its own kind of component, under its short and its
/// long name, and every kind is written with its own flag.
pub proof fn flags_announce_kinds(token: Seq<char>)
    ensures
        kind_of(token) == FilterKind::Mark <==> token == "-m"@ || token == "--markexpr"@,
        kind_of(token) == FilterKind::Keyword <==> token == "-k"@ || token == "--keyword"@,
        kind_of(token) == FilterKind::Deselect <==> token == "--deselect"@,
        kind_of(token) == FilterKind::Ignore <==> token == "--ignore"@,
        kind_of(token) == FilterKind::IgnoreGlob <==> token == "--ignore-glob"@,
        flag_of(FilterKind::Mark) == "-m"@,
        flag_of(FilterKind::Keyword) == "-k"@,
        flag_of(FilterKind::Deselect) == "--deselect"@,
        flag_of(FilterKind::Ignore) == "--ignore"@,
        flag_of(FilterKind::IgnoreGlob) == "--ignore-glob"@,
{
    reveal_strlit("-m");
    reveal_strlit("-k");
    reveal_strlit("--markexpr");
    reveal_strlit("--keyword");
    reveal_strlit("--deselect");
    reveal_strlit("--ignore");
    reveal_strlit("--ignore-glob");
    assert("-m"@[1] == 'm' && "-k"@[1] == 'k');
    assert("--markexpr"@[2] == 'm' && "--keyword"@[2] == 'k' && "--deselect"@[2] == 'd');
    assert("--ignore"@[2] == 'i' && "--ignore-glob"@[2] == 'i');
    assert("-m"@.len() == 2 && "-k"@.len() == 2);
    assert("--ignore"@.len() == 8 && "--ignore-glob"@.len() == 13);
}

} // verus!
