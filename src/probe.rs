use vstd::prelude::*;
use vstd::string::StringExecFns;

verus! {

/// How dangerous a positive finding of a probe is.
#[derive(Clone, Copy, Debug, PartialEq, Eq, Structural)]
pub enum TestCategory {
    Critical,
    High,
    Medium,
    Low,
}

/// The answer to "is this a problem?" for a verdict.
pub open spec fn verdict_text(passes: bool) -> Seq<char> {
    if passes {
        "no"@
    } else {
        "yes"@
    }
}

/// Builds `verdict_text(passes)`.
pub fn verdict_string(passes: bool) -> (r: String)
    ensures
        r@ == verdict_text(passes),
{
    if passes {
        String::from_str("no")
    } else {
        String::from_str("yes")
    }
}

/// One check of the isolation of a container.
pub trait Test {
    spec fn title(&self) -> Seq<char>;

    spec fn severity(&self) -> TestCategory;

    fn name(&self) -> (r: String)
        ensures
            r@ == self.title(),
    ;

    fn category(&self) -> (r: TestCategory)
        ensures
            r == self.severity(),
    ;
}

/// The outcome of one check.
pub trait TestResult {
    /// No disqualifying evidence was collected.
    spec fn passes(&self) -> bool;

    spec fn explanation(&self) -> Seq<char>;

    spec fn fault(&self) -> Seq<char>;

    fn success(&self) -> (r: bool)
        ensures
            r == self.passes(),
    ;

    fn explain(&self) -> (r: String)
        ensures
            r@ == self.explanation(),
    ;

    fn as_string(&self) -> (r: String)
        ensures
            r@ == verdict_text(self.passes()),
    ;

    fn fault_code(&self) -> (r: String)
        ensures
            r@ == self.fault(),
    ;
}

/// "no" answers exactly the passing verdict.
pub proof fn lemma_verdict_text(passes: bool)
    ensures
        (verdict_text(passes) == "no"@) <==> passes,
        (verdict_text(passes) == "yes"@) <==> !passes,
{
    reveal_strlit("no");
    reveal_strlit("yes");
    assert("no"@.len() != "yes"@.len());
}

} // verus!
