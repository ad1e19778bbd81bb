//! What the node is asked to trace of a transaction.
use vstd::prelude::*;

verus! {

/// The tracers that a node has built in.
#[derive(Clone, Copy, Debug, PartialEq, Eq)]
pub enum BuiltInTracer {
    FourByte,
    Call,
    PreState,
    Noop,
}

/// The settings of the tracer of accounts.
#[derive(Clone, Copy, Debug, PartialEq, Eq)]
pub struct PreStateConfig {
    /// Whether the accounts are reported before and after the transaction.
    pub diff_mode: Option<bool>,
}

/// The options of a `debug_traceTransaction` call.
#[derive(Debug, PartialEq, Eq)]
pub struct TracingOptions {
    pub disable_storage: Option<bool>,
    pub disable_stack: Option<bool>,
    pub enable_memory: Option<bool>,
    pub enable_return_data: Option<bool>,
    pub tracer: Option<BuiltInTracer>,
    pub tracer_config: Option<PreStateConfig>,
    pub timeout: Option<String>,
}

/// The options that leave everything to the node but the tracer and its
/// settings.
pub open spec fn options_with(
    tracer: Option<BuiltInTracer>,
    tracer_config: Option<PreStateConfig>,
) -> TracingOptions {
    TracingOptions {
        disable_storage: None,
        disable_stack: None,
        enable_memory: None,
        enable_return_data: None,
        tracer,
        tracer_config,
        timeout: None,
    }
}

/// The options for the accounts that a transaction finds.
pub open spec fn pre_state_options() -> TracingOptions {
    options_with(Some(BuiltInTracer::PreState), None)
}

/// The options for what a transaction changes in the accounts.
pub open spec fn diff_options() -> TracingOptions {
    options_with(Some(BuiltInTracer::PreState), Some(PreStateConfig { diff_mode: Some(true) }))
}

impl Default for TracingOptions {
    /// The options that leave everything to the node.
    fn default() -> (options: Self)
        ensures
            options == options_with(None, None),
            options.disable_storage is None,
            options.disable_stack is None,
            options.enable_memory is None,
            options.enable_return_data is None,
            options.tracer is None,
            options.tracer_config is None,
            options.timeout is None,
    {
        TracingOptions {
            disable_storage: None,
            disable_stack: None,
            enable_memory: None,
            enable_return_data: None,
            tracer: None,
            tracer_config: None,
            timeout: None,
        }
    }
}

/// Both traces come from the tracer of accounts, with nothing else set, and only
/// the second asks for changes.
pub proof fn law_traces_differ_in_mode_only()
    ensures
        pre_state_options().tracer == Some(BuiltInTracer::PreState),
        pre_state_options().tracer_config is None,
        diff_options().tracer_config matches Some(config) && config.diff_mode == Some(true),
        diff_options() == (TracingOptions {
            tracer_config: diff_options().tracer_config,
            ..pre_state_options()
        }),
        forall|options: TracingOptions|
            #![trigger options.tracer_config]
            options == pre_state_options() || options == diff_options() ==> {
                &&& options.disable_storage is None
                &&& options.disable_stack is None
                &&& options.enable_memory is None
                &&& options.enable_return_data is None
                &&& options.timeout is None
            },
{
}

/// Tracing options for the accounts that a transaction finds.
pub fn tracing_options() -> (options: TracingOptions)
    ensures
        options == pre_state_options(),
        options.tracer == Some(BuiltInTracer::PreState),
        options.tracer_config is None,
        options.disable_storage is None,
        options.disable_stack is None,
        options.enable_memory is None,
        options.enable_return_data is None,
        options.timeout is None,
{
    TracingOptions { tracer: Some(BuiltInTracer::PreState), ..TracingOptions::default() }
}

/// Tracing options for what a transaction changes in the accounts.
pub fn tracing_options_diff() -> (options: TracingOptions)
    ensures
        options == diff_options(),
        options.tracer == Some(BuiltInTracer::PreState),
        options.tracer_config == Some(PreStateConfig { diff_mode: Some(true) }),
        options.disable_storage is None,
        options.disable_stack is None,
        options.enable_memory is None,
        options.enable_return_data is None,
        options.timeout is None,
{
    TracingOptions {
        tracer: Some(BuiltInTracer::PreState),
        tracer_config: Some(PreStateConfig { diff_mode: Some(true) }),
        ..TracingOptions::default()
    }
}

} // verus!
