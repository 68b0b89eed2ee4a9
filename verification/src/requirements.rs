//! Pricing a request: from what a model costs and what the request asks for
//! to the passport that is submitted for it.
//!
//! An estimate reserves nothing and changes nothing. It adds up the cost of
//! loading the model if it is not loaded, the cost of a session if the
//! request keeps one, and a part that grows with the size of the request.
//! Every sum stops at `u64::MAX`, so an estimate always exists; one that
//! large is simply never admitted.

use vstd::prelude::*;
use vstd::string::*;
use crate::llm::{CompletionArgs, ContextSettings, LLMEndpointError};
use crate::request::{DeviceId, ModelId, Passport, RequestKind};
use crate::resource::{clamp_u64, saturating_mul_u64, Amount, ResourceVector};

verus! {

/// What a model costs, as its backend reports it.
#[derive(Clone, Copy, Debug, PartialEq, Eq, Structural)]
pub struct ModelCosts {
    /// What loading the model takes, once, while it stays loaded.
    pub load: ResourceVector,
    /// What one session takes on top of the model.
    pub session: ResourceVector,
    /// The units of device memory that one token of context takes.
    pub memory_per_token: u64,
}

/// What is known of a model before a request for it is priced.
#[derive(Clone, Copy, Debug, PartialEq, Eq, Structural)]
pub struct ModelProfile {
    pub model: ModelId,
    /// Whether the model offers completions.
    pub completions: bool,
    /// Whether the model offers embeddings.
    pub embeddings: bool,
    /// Whether the model is loaded already.
    pub loaded: bool,
    /// What the model costs; `None` where it could not be inspected.
    pub costs: Option<ModelCosts>,
}

/// The tokens of context that a completion is priced for: as many as the
/// caller hints at, or the default size where it gives no hint, and never
/// fewer than the prompt has characters.
pub open spec fn completion_tokens(
    prompt_len: nat,
    args: CompletionArgs,
    settings: ContextSettings,
) -> int {
    let wanted: int = match args.context_hint {
        Some(hint) => hint as int,
        None => settings.size as int,
    };
    if prompt_len > wanted {
        prompt_len as int
    } else {
        wanted
    }
}

/// The characters of a batch of inputs, all together.
pub open spec fn total_chars(inputs: Seq<String>) -> nat
    decreases inputs.len(),
{
    if inputs.len() == 0 {
        0
    } else {
        total_chars(inputs.drop_last()) + inputs.last()@.len()
    }
}

/// The part of an estimate that grows with the size of the request: the
/// threads of the settings, the tokens themselves, and the memory they take.
pub open spec fn sized_part(costs: ModelCosts, settings: ContextSettings, tokens: int) -> Amount {
    Amount {
        threads: settings.threads as int,
        context_tokens: tokens,
        device_memory: costs.memory_per_token * tokens,
    }
}

/// The amount that a request is priced at: the load of the model unless it
/// is loaded, the session if the request keeps one, and the sized part, with
/// every dimension stopping at `u64::MAX`.
pub open spec fn estimate(
    costs: ModelCosts,
    loaded: bool,
    keeps_session: bool,
    settings: ContextSettings,
    tokens: int,
) -> Amount {
    let load = if loaded {
        Amount::zero()
    } else {
        costs.load@
    };
    let session = if keeps_session {
        costs.session@
    } else {
        Amount::zero()
    };
    load.plus(session).plus(sized_part(costs, settings, tokens)).clamped()
}

/// The kind of request that a completion with these arguments is.
pub open spec fn completion_kind(args: CompletionArgs) -> RequestKind {
    if args.one_shot {
        RequestKind::CompletionOneShot
    } else {
        RequestKind::CompletionSession
    }
}

/// What pricing a completion returns: an error where the model offers no
/// completions or could not be inspected, and else the passport for the
/// estimate on the device asked for.
pub open spec fn is_completion_requirements(
    profile: ModelProfile,
    settings: ContextSettings,
    device: DeviceId,
    prompt: Seq<char>,
    args: CompletionArgs,
    outcome: Result<Passport, LLMEndpointError>,
) -> bool {
    if !profile.completions {
        outcome matches Err(LLMEndpointError::UnsuitableEndpoint(detail)) && detail@
            == "the model does not offer completions"@
    } else if profile.costs is None {
        outcome matches Err(LLMEndpointError::Advance(detail)) && detail@
            == "the model could not be inspected"@
    } else {
        &&& outcome matches Ok(passport)
        &&& passport.device == device
        &&& passport.model == profile.model
        &&& passport.kind == completion_kind(args)
        &&& passport.requested@ == estimate(
            profile.costs->0,
            profile.loaded,
            !args.one_shot,
            settings,
            completion_tokens(prompt.len(), args, settings),
        )
    }
}

/// What pricing embeddings returns: an error where the model offers no
/// embeddings or could not be inspected, and else the passport for the
/// estimate on the device asked for. Embeddings keep no session.
pub open spec fn is_embedding_requirements(
    profile: ModelProfile,
    settings: ContextSettings,
    device: DeviceId,
    inputs: Seq<String>,
    outcome: Result<Passport, LLMEndpointError>,
) -> bool {
    if !profile.embeddings {
        outcome matches Err(LLMEndpointError::UnsuitableEndpoint(detail)) && detail@
            == "the model does not offer embeddings"@
    } else if profile.costs is None {
        outcome matches Err(LLMEndpointError::Embeddings(detail)) && detail@
            == "the model could not be inspected"@
    } else {
        &&& outcome matches Ok(passport)
        &&& passport.device == device
        &&& passport.model == profile.model
        &&& passport.kind == RequestKind::Embeddings
        &&& passport.requested@ == estimate(
            profile.costs->0,
            profile.loaded,
            false,
            settings,
            clamp_u64(total_chars(inputs) as int),
        )
    }
}

/// The amount that a request for `tokens` tokens is priced at.
fn priced(
    costs: &ModelCosts,
    loaded: bool,
    keeps_session: bool,
    settings: &ContextSettings,
    tokens: u64,
) -> (requested: ResourceVector)
    ensures
        requested@ == estimate(*costs, loaded, keeps_session, *settings, tokens as int),
{
    let load: ResourceVector = if loaded {
        ResourceVector::zero()
    } else {
        costs.load
    };
    let session: ResourceVector = if keeps_session {
        costs.session
    } else {
        ResourceVector::zero()
    };
    let sized: ResourceVector = ResourceVector {
        threads: settings.threads as u64,
        context_tokens: tokens,
        device_memory: saturating_mul_u64(costs.memory_per_token, tokens),
    };
    assert(0 <= costs.memory_per_token * tokens) by (nonlinear_arith)
        requires
            0 <= costs.memory_per_token,
            0 <= tokens,
    ;
    load.saturating_add(&session).saturating_add(&sized)
}

/// Return an estimation of the resources required to process completions
/// inference given its arguments, as the passport to submit for it.
///
/// The estimate is a function of its arguments: it reserves nothing, and
/// asked again with the same arguments it returns the same passport.
pub fn completion_requirements(
    profile: &ModelProfile,
    settings: &ContextSettings,
    device: DeviceId,
    prompt: &str,
    args: &CompletionArgs,
) -> (outcome: Result<Passport, LLMEndpointError>)
    ensures
        is_completion_requirements(*profile, *settings, device, prompt@, *args, outcome),
{
    if !profile.completions {
        return Err(
            LLMEndpointError::UnsuitableEndpoint("the model does not offer completions".to_owned()),
        );
    }
    let costs: ModelCosts = match profile.costs {
        Some(costs) => costs,
        None => {
            return Err(LLMEndpointError::Advance("the model could not be inspected".to_owned()));
        },
    };
    let wanted: u64 = match args.context_hint {
        Some(hint) => hint as u64,
        None => settings.size as u64,
    };
    let prompt_len: u64 = prompt.unicode_len() as u64;
    let tokens: u64 = if prompt_len > wanted {
        prompt_len
    } else {
        wanted
    };
    let kind: RequestKind = if args.one_shot {
        RequestKind::CompletionOneShot
    } else {
        RequestKind::CompletionSession
    };
    Ok(
        Passport {
            device,
            kind,
            requested: priced(&costs, profile.loaded, !args.one_shot, settings, tokens),
            model: profile.model,
        },
    )
}

/// Return an estimation of the resources required to process embeddings
/// inference given its arguments, as the passport to submit for it.
///
/// The estimate is a function of its arguments: it reserves nothing, and
/// asked again with the same arguments it returns the same passport.
pub fn embedding_requirements(
    profile: &ModelProfile,
    settings: &ContextSettings,
    device: DeviceId,
    inputs: &[String],
) -> (outcome: Result<Passport, LLMEndpointError>)
    ensures
        is_embedding_requirements(*profile, *settings, device, inputs@, outcome),
{
    if !profile.embeddings {
        return Err(
            LLMEndpointError::UnsuitableEndpoint("the model does not offer embeddings".to_owned()),
        );
    }
    let costs: ModelCosts = match profile.costs {
        Some(costs) => costs,
        None => {
            return Err(LLMEndpointError::Embeddings("the model could not be inspected".to_owned()));
        },
    };
    let mut tokens: u64 = 0;
    let mut i: usize = 0;
    while i < inputs.len()
        invariant
            i <= inputs.len(),
            tokens == clamp_u64(total_chars(inputs@.take(i as int)) as int),
        decreases inputs.len() - i,
    {
        assert(inputs@.take(i + 1).drop_last() =~= inputs@.take(i as int));
        let chars: u64 = inputs[i].as_str().unicode_len() as u64;
        tokens = tokens.saturating_add(chars);
        i = i + 1;
    }
    assert(inputs@.take(i as int) =~= inputs@);
    Ok(
        Passport {
            device,
            kind: RequestKind::Embeddings,
            requested: priced(&costs, profile.loaded, false, settings, tokens),
            model: profile.model,
        },
    )
}

/// Estimation is repeatable: two answers to the same question about a
/// completion agree. Both are passports, and then the same passport, or both
/// are the same error with the same detail.
pub proof fn law_completion_requirements_repeatable(
    profile: ModelProfile,
    settings: ContextSettings,
    device: DeviceId,
    prompt: Seq<char>,
    args: CompletionArgs,
    first: Result<Passport, LLMEndpointError>,
    second: Result<Passport, LLMEndpointError>,
)
    requires
        is_completion_requirements(profile, settings, device, prompt, args, first),
        is_completion_requirements(profile, settings, device, prompt, args, second),
    ensures
        first is Ok <==> second is Ok,
        first is Ok ==> first->Ok_0 == second->Ok_0,
        first is Err ==> first->Err_0.message_spec() == second->Err_0.message_spec(),
{
}

/// Estimation is repeatable: two answers to the same question about
/// embeddings agree. Both are passports, and then the same passport, or both
/// are the same error with the same detail.
pub proof fn law_embedding_requirements_repeatable(
    profile: ModelProfile,
    settings: ContextSettings,
    device: DeviceId,
    inputs: Seq<String>,
    first: Result<Passport, LLMEndpointError>,
    second: Result<Passport, LLMEndpointError>,
)
    requires
        is_embedding_requirements(profile, settings, device, inputs, first),
        is_embedding_requirements(profile, settings, device, inputs, second),
    ensures
        first is Ok <==> second is Ok,
        first is Ok ==> first->Ok_0 == second->Ok_0,
        first is Err ==> first->Err_0.message_spec() == second->Err_0.message_spec(),
{
}

/// A larger context hint never lowers the estimate: of two completions that
/// differ in their hint only, the one with the larger hint is priced at
/// least as high in every dimension.
pub proof fn law_hint_never_lowers_estimate(
    costs: ModelCosts,
    loaded: bool,
    settings: ContextSettings,
    prompt_len: nat,
    smaller: CompletionArgs,
    larger: CompletionArgs,
)
    requires
        smaller.context_hint is Some,
        larger.context_hint is Some,
        smaller.context_hint->0 <= larger.context_hint->0,
        smaller.one_shot == larger.one_shot,
    ensures
        estimate(
            costs,
            loaded,
            !smaller.one_shot,
            settings,
            completion_tokens(prompt_len, smaller, settings),
        ).fits_within(
            estimate(
                costs,
                loaded,
                !larger.one_shot,
                settings,
                completion_tokens(prompt_len, larger, settings),
            ),
        ),
{
    let few: int = completion_tokens(prompt_len, smaller, settings);
    let many: int = completion_tokens(prompt_len, larger, settings);
    assert(costs.memory_per_token * few <= costs.memory_per_token * many) by (nonlinear_arith)
        requires
            0 <= costs.memory_per_token,
            few <= many,
    ;
}

} // verus!
