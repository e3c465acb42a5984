use vstd::prelude::*;

verus! {

/// XDP return code that lets the packet pass up the stack.
pub const XDP_PASS: u32 = 2;

/// Return code a chained XDP program uses to hand control back to the dispatcher.
pub const XDP_DISPATCHER_RETURN: u32 = 31;

/// TC action that hands the packet to the next filter.
pub const TC_ACT_PIPE: u32 = 3;

/// Return code a chained TC program uses to hand control back to the dispatcher.
pub const TC_DISPATCHER_RETURN: u32 = 30;

/// The set of return codes of a chained program that allow the next program
/// in the chain to run, kept as a list of codes below 32 and folded into a
/// 32-bit mask when the dispatcher configuration is built.
pub struct ProceedOn {
    pub codes: Vec<u32>,
}

impl ProceedOn {
    /// Every code indexes a bit of a 32-bit mask.
    pub open spec fn wf(self) -> bool {
        forall|i: int| 0 <= i < self.codes@.len() ==> self.codes@[i] < 32
    }

    /// The bitmask a sequence of return codes folds into.
    pub open spec fn mask_of(codes: Seq<u32>) -> u32
        decreases codes.len(),
    {
        if codes.len() == 0 {
            0u32
        } else {
            Self::mask_of(codes.drop_last()) | (1u32 << codes.last())
        }
    }

    /// An empty list of codes, to be replaced by a per-kind default.
    pub fn empty() -> (r: ProceedOn)
        ensures
            r.codes@ == Seq::<u32>::empty(),
            r.wf(),
    {
        ProceedOn { codes: Vec::new() }
    }

    /// Build a proceed-on list from the given codes, rejecting any code
    /// that does not index a bit of a 32-bit mask.
    pub fn from_codes(codes: Vec<u32>) -> (r: Option<ProceedOn>)
        ensures
            (forall|i: int| 0 <= i < codes@.len() ==> codes@[i] < 32) ==> (r matches Some(p)
                && p.codes@ == codes@ && p.wf()),
            (exists|i: int| 0 <= i < codes@.len() && codes@[i] >= 32) ==> r is None,
    {
        let mut i: usize = 0;
        while i < codes.len()
            invariant
                i <= codes@.len(),
                forall|j: int| 0 <= j < i ==> codes@[j] < 32,
            decreases codes@.len() - i,
        {
            if codes[i] >= 32 {
                return None;
            }
            i = i + 1;
        }
        Some(ProceedOn { codes })
    }

    /// The default proceed-on list for XDP programs: pass, and the
    /// dispatcher-return code.
    pub fn default_xdp() -> (r: ProceedOn)
        ensures
            r.codes@ == seq![XDP_PASS, XDP_DISPATCHER_RETURN],
            r.wf(),
    {
        let mut codes: Vec<u32> = Vec::new();
        codes.push(XDP_PASS);
        codes.push(XDP_DISPATCHER_RETURN);
        proof {
            assert(codes@ =~= seq![XDP_PASS, XDP_DISPATCHER_RETURN]);
        }
        ProceedOn { codes }
    }

    /// The default proceed-on list for TC programs: pipe, and the
    /// dispatcher-return code.
    pub fn default_tc() -> (r: ProceedOn)
        ensures
            r.codes@ == seq![TC_ACT_PIPE, TC_DISPATCHER_RETURN],
            r.wf(),
    {
        let mut codes: Vec<u32> = Vec::new();
        codes.push(TC_ACT_PIPE);
        codes.push(TC_DISPATCHER_RETURN);
        proof {
            assert(codes@ =~= seq![TC_ACT_PIPE, TC_DISPATCHER_RETURN]);
        }
        ProceedOn { codes }
    }

    /// Copy the list.
    pub fn duplicate(&self) -> (r: ProceedOn)
        ensures
            r.codes@ == self.codes@,
    {
        let mut codes: Vec<u32> = Vec::new();
        let mut i: usize = 0;
        while i < self.codes.len()
            invariant
                i <= self.codes@.len(),
                codes@ == self.codes@.subrange(0, i as int),
            decreases self.codes@.len() - i,
        {
            codes.push(self.codes[i]);
            proof {
                assert(codes@ =~= self.codes@.subrange(0, i + 1));
            }
            i = i + 1;
        }
        proof {
            assert(self.codes@.subrange(0, self.codes@.len() as int) =~= self.codes@);
        }
        ProceedOn { codes }
    }

    /// Fold the codes into the 32-bit mask stamped into a dispatcher slot.
    pub fn mask(&self) -> (r: u32)
        requires
            self.wf(),
        ensures
            r == Self::mask_of(self.codes@),
    {
        let mut m: u32 = 0;
        let mut i: usize = 0;
        while i < self.codes.len()
            invariant
                i <= self.codes@.len(),
                self.wf(),
                m == Self::mask_of(self.codes@.subrange(0, i as int)),
            decreases self.codes@.len() - i,
        {
            assert(self.codes@[i as int] < 32);
            m = m | (1u32 << self.codes[i]);
            proof {
                let s = self.codes@.subrange(0, i + 1);
                assert(s.drop_last() =~= self.codes@.subrange(0, i as int));
                assert(s.last() == self.codes@[i as int]);
            }
            i = i + 1;
        }
        proof {
            assert(self.codes@.subrange(0, self.codes@.len() as int) =~= self.codes@);
        }
        m
    }
}

} // verus!
