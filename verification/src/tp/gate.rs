//! One-shot decisions shared between a dispatcher and its workers, and the first
//! failure of a runtime.
use vstd::prelude::*;
use vstd::string::*;

verus! {

#[derive(Clone, Copy, Debug, PartialEq, Eq, Structural)]
pub enum TpCommandDecision {
    Pending,
    Execute,
    Cancel,
}

/// Holds delivered commands back until every rank has been reached. The first
/// decision stands.
#[derive(Clone, Copy, Debug, PartialEq, Eq, Structural)]
pub struct TpCommandStartGate {
    decision: TpCommandDecision,
}

impl Default for TpCommandStartGate {
    fn default() -> (r: Self)
        ensures
            r.decided() == TpCommandDecision::Pending,
    {
        TpCommandStartGate { decision: TpCommandDecision::Pending }
    }
}

impl TpCommandStartGate {
    pub closed spec fn decided(self) -> TpCommandDecision {
        self.decision
    }

    /// Releases the held commands, unless they were decided on before.
    pub fn execute(&mut self) -> (resolved: bool)
        ensures
            resolved == (old(self).decided() == TpCommandDecision::Pending),
            final(self).decided() == (if resolved {
                TpCommandDecision::Execute
            } else {
                old(self).decided()
            }),
    {
        self.resolve(TpCommandDecision::Execute)
    }

    /// Drops the held commands, unless they were decided on before.
    pub fn cancel(&mut self) -> (resolved: bool)
        ensures
            resolved == (old(self).decided() == TpCommandDecision::Pending),
            final(self).decided() == (if resolved {
                TpCommandDecision::Cancel
            } else {
                old(self).decided()
            }),
    {
        self.resolve(TpCommandDecision::Cancel)
    }

    /// The decision, once there is one: a worker waits until this is not pending.
    pub fn decision(&self) -> (r: TpCommandDecision)
        ensures
            r == self.decided(),
    {
        self.decision
    }

    pub fn resolve(&mut self, next: TpCommandDecision) -> (resolved: bool)
        ensures
            resolved == (old(self).decided() == TpCommandDecision::Pending),
            final(self).decided() == (if resolved {
                next
            } else {
                old(self).decided()
            }),
    {
        if self.decision != TpCommandDecision::Pending {
            return false;
        }
        self.decision = next;
        true
    }
}

#[derive(Clone, Copy, Debug, PartialEq, Eq, Structural)]
pub enum TpStartupDecision {
    Pending,
    Connect,
    Cancel,
}

/// Holds prepared workers back until all of them may connect. The first decision
/// stands.
#[derive(Clone, Copy, Debug, PartialEq, Eq, Structural)]
pub struct TpStartupGate {
    decision: TpStartupDecision,
}

impl Default for TpStartupGate {
    fn default() -> (r: Self)
        ensures
            r.decided() == TpStartupDecision::Pending,
    {
        TpStartupGate { decision: TpStartupDecision::Pending }
    }
}

impl TpStartupGate {
    pub closed spec fn decided(self) -> TpStartupDecision {
        self.decision
    }

    pub fn connect(&mut self)
        ensures
            final(self).decided() == (if old(self).decided() == TpStartupDecision::Pending {
                TpStartupDecision::Connect
            } else {
                old(self).decided()
            }),
    {
        self.set(TpStartupDecision::Connect);
    }

    pub fn cancel(&mut self)
        ensures
            final(self).decided() == (if old(self).decided() == TpStartupDecision::Pending {
                TpStartupDecision::Cancel
            } else {
                old(self).decided()
            }),
    {
        self.set(TpStartupDecision::Cancel);
    }

    /// Whether a waiting worker may connect; `None` while it has to wait.
    pub fn may_connect(&self) -> (r: Option<bool>)
        ensures
            r == (match self.decided() {
                TpStartupDecision::Pending => None,
                TpStartupDecision::Connect => Some(true),
                TpStartupDecision::Cancel => Some(false),
            }),
    {
        match self.decision {
            TpStartupDecision::Pending => None,
            TpStartupDecision::Connect => Some(true),
            TpStartupDecision::Cancel => Some(false),
        }
    }

    pub fn set(&mut self, next: TpStartupDecision)
        ensures
            final(self).decided() == (if old(self).decided() == TpStartupDecision::Pending {
                next
            } else {
                old(self).decided()
            }),
    {
        if self.decision == TpStartupDecision::Pending {
            self.decision = next;
        }
    }
}

/// The first failure of a runtime. Once poisoned it stays poisoned, with the
/// reason it had first.
pub struct TpRuntimePoison {
    reason: Option<String>,
}

impl Default for TpRuntimePoison {
    fn default() -> (r: Self)
        ensures
            r@ is None,
    {
        TpRuntimePoison { reason: None }
    }
}

impl View for TpRuntimePoison {
    type V = Option<Seq<char>>;

    closed spec fn view(&self) -> Option<Seq<char>> {
        match self.reason {
            Some(reason) => Some(reason@),
            None => None,
        }
    }
}

/// The state after a failure was reported.
pub open spec fn poisoned_by(before: Option<Seq<char>>, reason: Seq<char>) -> Option<Seq<char>> {
    match before {
        Some(first) => Some(first),
        None => Some(reason),
    }
}

pub open spec fn poisoned_text(reason: Seq<char>) -> Seq<char> {
    "Qwen3.5 TP executor is poisoned: "@ + reason
}

impl TpRuntimePoison {
    /// Records a failure and returns the one that stands.
    pub fn poison(&mut self, reason: String) -> (first: String)
        ensures
            final(self)@ == poisoned_by(old(self)@, reason@),
            final(self)@ == Some(first@),
    {
        if let Some(first) = &self.reason {
            return first.clone();
        }
        let first = reason.clone();
        self.reason = Some(reason);
        first
    }

    pub fn ensure_healthy(&self) -> (r: Result<(), String>)
        ensures
            match self@ {
                Some(reason) => r matches Err(message) && message@ == poisoned_text(reason),
                None => r is Ok,
            },
    {
        match &self.reason {
            Some(reason) => {
                let mut message = String::from_str("Qwen3.5 TP executor is poisoned: ");
                message.append(reason.as_str());
                Err(message)
            },
            None => Ok(()),
        }
    }
}

/// The state after a run of failures.
pub open spec fn poisoned_by_all(before: Option<Seq<char>>, reasons: Seq<Seq<char>>) -> Option<
    Seq<char>,
>
    decreases reasons.len(),
{
    if reasons.len() == 0 {
        before
    } else {
        poisoned_by(poisoned_by_all(before, reasons.drop_last()), reasons.last())
    }
}

/// Of a run of failures the first one stands, however many follow, and where
/// there was one before, none of the run replaces it.
pub proof fn lemma_first_failure_stands(before: Option<Seq<char>>, reasons: Seq<Seq<char>>)
    ensures
        poisoned_by_all(before, reasons) == (match before {
            Some(first) => Some(first),
            None => if reasons.len() > 0 {
                Some(reasons[0])
            } else {
                None
            },
        }),
    decreases reasons.len(),
{
    if reasons.len() > 0 {
        lemma_first_failure_stands(before, reasons.drop_last());
    }
}

/// A failure that was reported is never forgotten, and a healthy runtime keeps the reason
/// of the one that ended its health.
pub proof fn lemma_poison_keeps_its_first_reason(before: Option<Seq<char>>, reason: Seq<char>)
    ensures
        poisoned_by(before, reason) is Some,
        before is Some ==> poisoned_by(before, reason) == before,
        before is None ==> poisoned_by(before, reason) == Some(reason),
        poisoned_text(reason).len() >= reason.len(),
        poisoned_text(reason).skip(poisoned_text(reason).len() - reason.len()) == reason,
{
    let text = poisoned_text(reason);
    assert(text.skip(text.len() - reason.len()) =~= reason);
}

} // verus!
