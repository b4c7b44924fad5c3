//! Which provider is active, and which key or token it is asked with.

use crate::text::{is_white_space, text_of, trimmed, trimming_takes_white_space_alone};
use vstd::prelude::*;
use vstd::string::*;

verus! {

/// The model that is used where no other is asked for: its provider and that provider's key.
#[derive(Debug)]
pub struct DefaultModel {
    pub provider_id: String,
    pub api_key: Option<String>,
}

/// The mathematical counterpart of [`DefaultModel`].
pub struct DefaultModelView {
    pub provider_id: Seq<char>,
    pub api_key: Option<Seq<char>>,
}

impl View for DefaultModel {
    type V = DefaultModelView;

    open spec fn view(&self) -> DefaultModelView {
        DefaultModelView { provider_id: self.provider_id@, api_key: text_of(self.api_key) }
    }
}

/// What an optional model stands for.
pub open spec fn model_of(model: Option<DefaultModel>) -> Option<DefaultModelView> {
    match model {
        Some(m) => Some(m@),
        None => None,
    }
}

/// The provider of the default model; none where AI is switched off.
pub fn active_provider_id(disable_ai: bool, default_provider: Option<String>) -> (id: Option<
    String,
>)
    ensures
        text_of(id) == (if disable_ai {
            None
        } else {
            text_of(default_provider)
        }),
{
    if disable_ai {
        None
    } else {
        default_provider
    }
}

/// The key of the default model, where that model is the provider's.
pub open spec fn spec_active_provider_api_key(
    provider_id: Seq<char>,
    default_model: Option<DefaultModelView>,
) -> Option<Seq<char>> {
    match default_model {
        Some(model) => if model.provider_id == provider_id {
            model.api_key
        } else {
            None
        },
        None => None,
    }
}

pub fn active_provider_api_key(provider_id: &String, default_model: Option<DefaultModel>) -> (key:
    Option<String>)
    ensures
        text_of(key) == spec_active_provider_api_key(provider_id@, model_of(default_model)),
{
    match default_model {
        Some(model) => if model.provider_id == *provider_id {
            model.api_key
        } else {
            None
        },
        None => None,
    }
}

/// A key, unless it is empty.
pub open spec fn non_empty(key: Option<Seq<char>>) -> Option<Seq<char>> {
    match key {
        Some(k) => if k.len() > 0 {
            Some(k)
        } else {
            None
        },
        None => None,
    }
}

/// The key of the settings, and only where there is none that of the environment. An empty key
/// is none, and an empty one of the settings is not made good by the environment.
pub open spec fn spec_choose_key(
    configured: Option<Seq<char>>,
    variable: Option<Seq<char>>,
) -> Option<Seq<char>> {
    match configured {
        Some(key) => non_empty(Some(key)),
        None => non_empty(variable),
    }
}

fn keep_non_empty(key: Option<String>) -> (kept: Option<String>)
    ensures
        text_of(kept) == non_empty(text_of(key)),
{
    match key {
        Some(k) => if k.as_str().is_empty() {
            None
        } else {
            Some(k)
        },
        None => None,
    }
}

pub fn choose_key(configured: Option<String>, variable: Option<String>) -> (key: Option<String>)
    ensures
        text_of(key) == spec_choose_key(text_of(configured), text_of(variable)),
{
    match configured {
        Some(key) => keep_non_empty(Some(key)),
        None => keep_non_empty(variable),
    }
}

/// The key that OpenAI usage is asked with: the admin key where there is one.
pub open spec fn spec_usage_key(admin: Option<Seq<char>>, provider_key: Seq<char>) -> Seq<char> {
    match non_empty(admin) {
        Some(key) => key,
        None => provider_key,
    }
}

pub fn usage_key(admin: Option<String>, provider_key: String) -> (key: String)
    ensures
        key@ == spec_usage_key(text_of(admin), provider_key@),
{
    match keep_non_empty(admin) {
        Some(key) => key,
        None => provider_key,
    }
}

/// What a list of variables holds; a variable that is not set holds nothing.
pub open spec fn values_of(values: Seq<Option<String>>) -> Seq<Option<Seq<char>>> {
    values.map_values(|v: Option<String>| text_of(v))
}

/// The variable at a place of the list; nothing past its end.
pub open spec fn value_at(values: Seq<Option<Seq<char>>>, i: int) -> Option<Seq<char>> {
    if 0 <= i < values.len() {
        values[i]
    } else {
        None
    }
}

pub fn variable_at(values: &Vec<Option<String>>, i: usize) -> (value: Option<String>)
    ensures
        text_of(value) == value_at(values_of(values@), i as int),
{
    if i < values.len() {
        values[i].clone()
    } else {
        None
    }
}

/// The first value that is more than white space, without the white space around it.
pub open spec fn first_token(values: Seq<Option<Seq<char>>>) -> Option<Seq<char>>
    decreases values.len(),
{
    if values.len() == 0 {
        None
    } else {
        match values[0] {
            Some(value) => if trimmed(value).len() > 0 {
                Some(trimmed(value))
            } else {
                first_token(values.drop_first())
            },
            None => first_token(values.drop_first()),
        }
    }
}

/// The variables that may hold a GitHub token, in the order in which they are looked at. The
/// names of two of them are the Copilot client's.
pub open spec fn spec_github_token_variables(
    copilot_oauth: Seq<char>,
    github_copilot_oauth: Seq<char>,
) -> Seq<Seq<char>> {
    seq![
        "GITHUB_TOKEN"@,
        "COPILOT_USAGE_TOKEN"@,
        copilot_oauth,
        github_copilot_oauth,
        "GH_TOKEN"@,
    ]
}

/// The first GitHub token among the values of the token variables.
pub fn resolve_github_token(values: &Vec<Option<String>>) -> (token: Option<String>)
    ensures
        text_of(token) == first_token(values_of(values@)),
{
    let mut i: usize = 0;
    let ghost all = values_of(values@);
    assert(all.skip(0) =~= all);
    while i < values.len()
        invariant
            i <= values@.len(),
            all == values_of(values@),
            first_token(all) == first_token(all.skip(i as int)),
        decreases values@.len() - i,
    {
        proof {
            assert(all.skip(i as int)[0] == text_of(values@[i as int]));
            assert(all.skip(i as int).drop_first() =~= all.skip(i + 1));
        }
        match &values[i] {
            Some(value) => {
                let token = value.as_str().trim();
                if !token.is_empty() {
                    return Some(token.to_owned());
                }
            },
            None => {},
        }
        i = i + 1;
    }
    None
}

/// With AI switched off no provider is active, and otherwise that of the default model is.
pub proof fn the_default_provider_is_active(default_provider: Option<String>, id: Option<String>)
    ensures
        call_ensures(active_provider_id, (true, default_provider), id) ==> id is None,
        call_ensures(active_provider_id, (false, default_provider), id) ==> text_of(id) == text_of(
            default_provider,
        ),
{
}

/// The key of the default model is used for its own provider and no other.
pub proof fn keys_belong_to_their_provider(provider_id: Seq<char>, model: DefaultModelView)
    ensures
        model.provider_id == provider_id ==> spec_active_provider_api_key(provider_id, Some(model))
            == model.api_key,
        model.provider_id != provider_id ==> spec_active_provider_api_key(provider_id, Some(model))
            is None,
        spec_active_provider_api_key(provider_id, None) is None,
{
}

/// A configured key is chosen whatever the environment holds, and that of the environment where
/// none is configured; an empty one is never chosen.
pub proof fn configured_keys_come_first(
    configured: Seq<char>,
    variable: Option<Seq<char>>,
    value: Seq<char>,
)
    ensures
        configured.len() > 0 ==> spec_choose_key(Some(configured), variable) == Some(configured),
        configured.len() == 0 ==> spec_choose_key(Some(configured), variable) is None,
        value.len() > 0 ==> spec_choose_key(None, Some(value)) == Some(value),
        value.len() == 0 ==> spec_choose_key(None, Some(value)) is None,
        spec_choose_key(None, None) is None,
{
}

/// An admin key is used where there is one that is not empty, and the provider's key otherwise.
pub proof fn admin_keys_come_first(admin: Seq<char>, provider_key: Seq<char>)
    ensures
        admin.len() > 0 ==> spec_usage_key(Some(admin), provider_key) == admin,
        admin.len() == 0 ==> spec_usage_key(Some(admin), provider_key) == provider_key,
        spec_usage_key(None, provider_key) == provider_key,
{
}

/// A variable that is not set, or holds white space only.
pub open spec fn holds_no_token(value: Option<Seq<char>>) -> bool {
    value matches Some(text) ==> forall|i: int|
        0 <= i < text.len() ==> is_white_space(#[trigger] text[i])
}

/// The token is that of the first variable that holds more than white space, without the white
/// space around it.
pub proof fn the_first_token_is_taken(
    values: Seq<Option<Seq<char>>>,
    place: int,
    value: Seq<char>,
    at: int,
)
    requires
        0 <= place < values.len(),
        forall|i: int| 0 <= i < place ==> holds_no_token(#[trigger] values[i]),
        values[place] == Some(value),
        0 <= at < value.len(),
        !is_white_space(value[at]),
    ensures
        first_token(values) == Some(trimmed(value)),
        trimmed(value).len() > 0,
    decreases place,
{
    if place == 0 {
        let ends = trimming_takes_white_space_alone(value);
        assert(ends.0 <= at < ends.1);
    } else {
        assert(holds_no_token(values[0]));
        lemma_no_token(values[0]);
        let rest = values.drop_first();
        assert forall|i: int| 0 <= i < place - 1 implies holds_no_token(#[trigger] rest[i]) by {
            assert(rest[i] == values[i + 1]);
        }
        the_first_token_is_taken(rest, place - 1, value, at);
    }
}

/// There is no token where no variable holds more than white space.
pub proof fn white_space_is_no_token(values: Seq<Option<Seq<char>>>)
    requires
        forall|i: int| 0 <= i < values.len() ==> holds_no_token(#[trigger] values[i]),
    ensures
        first_token(values) is None,
    decreases values.len(),
{
    if values.len() > 0 {
        lemma_no_token(values[0]);
        let rest = values.drop_first();
        assert forall|i: int| 0 <= i < rest.len() implies holds_no_token(#[trigger] rest[i]) by {
            assert(rest[i] == values[i + 1]);
        }
        white_space_is_no_token(rest);
    }
}

proof fn lemma_no_token(value: Option<Seq<char>>)
    requires
        holds_no_token(value),
    ensures
        value matches Some(text) ==> trimmed(text).len() == 0,
{
    match value {
        Some(text) => {
            let ends = trimming_takes_white_space_alone(text);
            if ends.0 < ends.1 {
                assert(is_white_space(text[ends.0]));
            }
        },
        None => {},
    }
}

/// What variables and models hold is taken over as it is.
pub proof fn values_are_taken_over_whole(values: Seq<Option<String>>, model: DefaultModel)
    ensures
        values_of(values).len() == values.len(),
        forall|i: int|
            0 <= i < values.len() ==> #[trigger] values_of(values)[i] == text_of(values[i]),
        model_of(Some(model)) == Some(
            DefaultModelView {
                provider_id: model.provider_id@,
                api_key: match model.api_key {
                    Some(key) => Some(key@),
                    None => None,
                },
            },
        ),
        model_of(None) is None,
{
}

} // verus!
