//! How the layout model is run.

use vstd::prelude::*;

verus! {

/// Where the layout model runs.
#[derive(Clone, Copy, Debug, PartialEq, Eq, Structural)]
pub enum OrtExecutionProvider {
    CPU,
    CUDA(i32),
    Trt(i32),
    CoreML { ane_only: bool },
}

/// How far the model's graph is optimised before it runs.
#[derive(Clone, Copy, Debug, PartialEq, Eq, Structural)]
pub enum GraphOptLevel {
    Level1,
    Level2,
    Level3,
}

impl GraphOptLevel {
    /// The level with this number, one to three.
    pub fn from_index(index: usize) -> (r: Option<GraphOptLevel>)
        ensures
            r == (if index == 1 {
                Some(GraphOptLevel::Level1)
            } else if index == 2 {
                Some(GraphOptLevel::Level2)
            } else if index == 3 {
                Some(GraphOptLevel::Level3)
            } else {
                None
            }),
    {
        if index == 1 {
            Some(GraphOptLevel::Level1)
        } else if index == 2 {
            Some(GraphOptLevel::Level2)
        } else if index == 3 {
            Some(GraphOptLevel::Level3)
        } else {
            None
        }
    }
}

/// The settings of the inference runtime.
#[derive(Debug)]
pub struct ORTConfig {
    pub execution_providers: Vec<OrtExecutionProvider>,
    pub intra_threads: usize,
    pub inter_threads: usize,
    pub opt_level: Option<GraphOptLevel>,
}

impl Clone for ORTConfig {
    fn clone(&self) -> (r: Self)
        ensures
            r.execution_providers@ == self.execution_providers@,
            r.intra_threads == self.intra_threads,
            r.inter_threads == self.inter_threads,
            r.opt_level == self.opt_level,
    {
        let mut providers: Vec<OrtExecutionProvider> = Vec::new();
        let mut i: usize = 0;
        while i < self.execution_providers.len()
            invariant
                i <= self.execution_providers.len(),
                providers@ == self.execution_providers@.subrange(0, i as int),
            decreases self.execution_providers.len() - i,
        {
            providers.push(self.execution_providers[i]);
            assert(providers@ =~= self.execution_providers@.subrange(0, i + 1));
            i = i + 1;
        }
        assert(providers@ =~= self.execution_providers@);
        ORTConfig {
            execution_providers: providers,
            intra_threads: self.intra_threads,
            inter_threads: self.inter_threads,
            opt_level: self.opt_level,
        }
    }
}

impl ORTConfig {
    /// Number of inferences that may run at once: one for each thread that
    /// the runtime uses within an operation.
    pub fn permits(&self) -> (n: usize)
        ensures
            n == self.intra_threads,
    {
        self.intra_threads
    }
}

/// What the command line says of execution providers.
#[derive(Clone, Copy, Debug, PartialEq, Eq, Structural)]
pub struct EpArgs {
    pub trt: bool,
    pub cuda: bool,
    pub coreml: bool,
    pub use_ane: bool,
    pub device_id: i32,
}

/// The providers to try, in this order: TensorRT, CUDA and CoreML where they
/// were asked for, and the CPU in any case.
pub open spec fn spec_providers(args: EpArgs) -> Seq<OrtExecutionProvider> {
    (if args.trt {
        seq![OrtExecutionProvider::Trt(args.device_id)]
    } else {
        Seq::empty()
    }) + (if args.cuda {
        seq![OrtExecutionProvider::CUDA(args.device_id)]
    } else {
        Seq::empty()
    }) + (if args.coreml {
        seq![OrtExecutionProvider::CoreML { ane_only: args.use_ane }]
    } else {
        Seq::empty()
    }) + seq![OrtExecutionProvider::CPU]
}

pub fn parse_ep_args(args: &EpArgs) -> (providers: Vec<OrtExecutionProvider>)
    ensures
        providers@ == spec_providers(*args),
        providers@.len() >= 1,
        providers@.last() == OrtExecutionProvider::CPU,
{
    let mut providers: Vec<OrtExecutionProvider> = Vec::new();
    if args.trt {
        providers.push(OrtExecutionProvider::Trt(args.device_id));
    }
    if args.cuda {
        providers.push(OrtExecutionProvider::CUDA(args.device_id));
    }
    if args.coreml {
        providers.push(OrtExecutionProvider::CoreML { ane_only: args.use_ane });
    }
    providers.push(OrtExecutionProvider::CPU);
    assert(providers@ =~= spec_providers(*args));
    providers
}

} // verus!
