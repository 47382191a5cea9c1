use vstd::prelude::*;

verus! {

/// A rule kept as written.
#[derive(Debug, Clone)]
pub struct CompiledRule {
    pub raw: String,
}

pub struct RuleCompiler;

impl RuleCompiler {
    /// Compiles a rule: the compiled rule keeps the rule's text.
    pub fn compile(rule_text: &str) -> (r: CompiledRule)
        ensures
            r.raw@ == rule_text@,
    {
        CompiledRule { raw: String::from_str(rule_text) }
    }
}

} // verus!
