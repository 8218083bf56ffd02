//! Plain value types for tasks: the payloads the encryption service protects.
//!
//! All types here are inert data. Validation (for example of an empty title)
//! is the caller's concern; this layer only guarantees that every value
//! round-trips exactly through the byte codec in `codec`.
use vstd::prelude::*;

verus! {

/// Status of a task. No transition rules are imposed here; transitions are
/// the caller's responsibility.
#[derive(Clone, Copy, Debug, PartialEq, Eq, Structural)]
pub enum TaskStatus {
    Todo,
    InProgress,
    Done,
    Blocked,
}

/// Priority of a task, ordered by severity from `Low` to `Critical`.
/// This layer stores the value; it does not enforce ordering semantics.
#[derive(Clone, Copy, Debug, PartialEq, Eq, Structural)]
pub enum TaskPriority {
    Low,
    Medium,
    High,
    Critical,
}

/// Insights produced by an external analysis collaborator; this layer treats
/// them as an opaque serializable payload.
///
/// `complexity_bits` holds the 32-bit image of the collaborator's real-valued
/// complexity score. The score has no meaning to this layer, which only
/// stores and round-trips it; callers that compute with the score convert at
/// the boundary.
#[derive(Clone, Debug, PartialEq)]
pub struct AIInsights {
    pub complexity_bits: u32,
    pub recommended_subtasks: Vec<String>,
    pub potential_blockers: Vec<String>,
}

/// A task record. `id` is an opaque unique token assigned by the caller and
/// never regenerated here; all other fields are mutable in place by the
/// owning application layer.
#[derive(Clone, Debug, PartialEq)]
pub struct Task {
    pub id: String,
    pub title: String,
    pub description: Option<String>,
    pub status: TaskStatus,
    pub priority: TaskPriority,
    pub ai_insights: Option<AIInsights>,
}

/// Mathematical image of an `AIInsights` value: every text is a sequence of
/// characters.
pub struct InsightsView {
    pub complexity_bits: u32,
    pub recommended_subtasks: Seq<Seq<char>>,
    pub potential_blockers: Seq<Seq<char>>,
}

/// Mathematical image of a `Task` value.
pub struct TaskView {
    pub id: Seq<char>,
    pub title: Seq<char>,
    pub description: Option<Seq<char>>,
    pub status: TaskStatus,
    pub priority: TaskPriority,
    pub ai_insights: Option<InsightsView>,
}

impl View for AIInsights {
    type V = InsightsView;

    open spec fn view(&self) -> InsightsView {
        InsightsView {
            complexity_bits: self.complexity_bits,
            recommended_subtasks: self.recommended_subtasks.deep_view(),
            potential_blockers: self.potential_blockers.deep_view(),
        }
    }
}

impl View for Task {
    type V = TaskView;

    open spec fn view(&self) -> TaskView {
        TaskView {
            id: self.id@,
            title: self.title@,
            description: match self.description {
                Some(d) => Some(d@),
                None => None,
            },
            status: self.status,
            priority: self.priority,
            ai_insights: match self.ai_insights {
                Some(i) => Some(i@),
                None => None,
            },
        }
    }
}

/// Error of the data model: the byte payload handed to deserialization does
/// not match the expected schema. Nothing is ever substituted silently.
#[derive(Clone, Copy, Debug, PartialEq, Eq, Structural)]
pub enum DataError {
    MalformedData,
}

} // verus!
