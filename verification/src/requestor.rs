//! One-time builder-style configuration of a requestor session: what to
//! run, where the image lives, under which constraints, for how long and
//! for how much.  The configuration is consumed when the session starts;
//! the session loop itself is driven outside, against the negotiation and
//! payment state machines.

use vstd::prelude::*;
use vstd::string::StringExecFns;
use crate::package::Image;

verus! {

/// The WebAssembly runtime generation an image targets.
#[derive(Clone, Copy, PartialEq, Eq, Structural, Debug)]
pub enum WasmRuntime {
    Wasi(i32),
}

/// A WebAssembly image specification.
#[derive(Clone, Copy, PartialEq, Eq, Structural, Debug)]
pub struct ImageSpec {
    pub runtime: WasmRuntime,
}

impl ImageSpec {
    pub fn from_github(_github_repository: &str) -> (r: ImageSpec)
        ensures
            r.runtime == WasmRuntime::Wasi(1),
    {
        ImageSpec { runtime: WasmRuntime::Wasi(1) }
    }

    pub fn from_url(_url: &str) -> (r: ImageSpec)
        ensures
            r.runtime == WasmRuntime::Wasi(1),
    {
        ImageSpec { runtime: WasmRuntime::Wasi(1) }
    }

    pub fn runtime(self, runtime: WasmRuntime) -> (r: ImageSpec)
        ensures
            r.runtime == runtime,
    {
        ImageSpec { runtime }
    }
}

/// Where the task image lives: a local file to publish, or a URL already
/// reachable by providers.
pub enum Location {
    File(String),
    URL(String),
}

/// One high-level task command.
pub enum Command {
    Deploy,
    Start,
    Run(Vec<String>),
    Transfer { from: String, to: String },
}

/// One ordered task script.
pub struct CommandList(pub Vec<Command>);

impl CommandList {
    pub fn new(v: Vec<Command>) -> (r: CommandList)
        ensures
            r.0 == v,
    {
        CommandList(v)
    }
}

/// A conjunction of demand constraint clauses.
pub struct Constraints {
    pub clauses: Vec<String>,
}

/// The clauses of a conjunction, each in parentheses, in order.
pub open spec fn clauses_expr(clauses: Seq<String>) -> Seq<char>
    decreases clauses.len(),
{
    if clauses.len() == 0 {
        Seq::empty()
    } else {
        clauses_expr(clauses.drop_last()) + "("@ + clauses.last()@ + ")"@
    }
}

impl Constraints {
    pub fn new() -> (r: Constraints)
        ensures
            r.clauses@ =~= Seq::<String>::empty(),
    {
        Constraints { clauses: Vec::new() }
    }

    pub fn single(clause: String) -> (r: Constraints)
        ensures
            r.clauses@ =~= seq![clause],
    {
        let mut clauses: Vec<String> = Vec::new();
        clauses.push(clause);
        Constraints { clauses }
    }

    /// The conjunction of two constraint sets.
    pub fn and(self, other: Constraints) -> (r: Constraints)
        ensures
            r.clauses@ == self.clauses@ + other.clauses@,
    {
        let mut clauses = self.clauses;
        let mut more = other.clauses;
        clauses.append(&mut more);
        Constraints { clauses }
    }

    /// Renders the conjunction as one constraints expression.
    pub fn expression(&self) -> (r: String)
        ensures
            r@ == "(&"@ + clauses_expr(self.clauses@) + ")"@,
    {
        let ghost all = self.clauses@;
        let mut s: String = "(&".to_owned();
        let mut i: usize = 0;
        while i < self.clauses.len()
            invariant
                i <= all.len(),
                all == self.clauses@,
                s@ == "(&"@ + clauses_expr(all.take(i as int)),
            decreases all.len() - i,
        {
            proof {
                assert(all.take(i + 1).drop_last() =~= all.take(i as int));
                assert(all.take(i + 1).last() == all[i as int]);
            }
            s.append("(");
            s.append(self.clauses[i].as_str());
            s.append(")");
            proof {
                assert(s@ =~= "(&"@ + clauses_expr(all.take(i + 1)));
            }
            i = i + 1;
        }
        proof {
            assert(all.take(all.len() as int) =~= all);
        }
        s.append(")");
        s
    }
}

/// The plain values of the demand the session publishes; their rendering
/// into the request is the binding layer's business.
pub struct DemandProperties {
    pub node_name: String,
    pub task_package: String,
    pub expiration_millis: i64,
}

/// The requestor session configuration, consumed at start.
pub struct Requestor {
    pub name: String,
    pub image_type: Image,
    pub location: Location,
    pub constraints: Constraints,
    pub tasks: Vec<CommandList>,
    pub timeout_secs: u64,
    pub budget: u64,
}

impl Requestor {
    /// A fresh configuration: no tasks, a minute's timeout, no budget, and
    /// the default pricing-model constraint.
    pub fn new(name: String, image_type: Image, location: Location) -> (r: Requestor)
        ensures
            r.name == name,
            r.image_type == image_type,
            r.location == location,
            r.constraints.clauses@.len() == 1,
            r.constraints.clauses@[0]@ == "golem.com.pricing.model=linear"@,
            r.tasks@ =~= Seq::<CommandList>::empty(),
            r.timeout_secs == 60,
            r.budget == 0,
    {
        Requestor {
            name,
            image_type,
            location,
            constraints: Constraints::single("golem.com.pricing.model=linear".to_owned()),
            tasks: Vec::new(),
            timeout_secs: 60,
            budget: 0,
        }
    }

    /// Conjoins further constraints onto the configured demand.
    pub fn with_constraints(self, constraints: Constraints) -> (r: Requestor)
        ensures
            r.constraints.clauses@ == self.constraints.clauses@ + constraints.clauses@,
            r.name == self.name,
            r.image_type == self.image_type,
            r.location == self.location,
            r.tasks == self.tasks,
            r.timeout_secs == self.timeout_secs,
            r.budget == self.budget,
    {
        let merged = self.constraints.and(constraints);
        Requestor { constraints: merged, ..self }
    }

    pub fn with_timeout(self, timeout_secs: u64) -> (r: Requestor)
        ensures
            r.timeout_secs == timeout_secs,
            r.name == self.name,
            r.image_type == self.image_type,
            r.location == self.location,
            r.constraints == self.constraints,
            r.tasks == self.tasks,
            r.budget == self.budget,
    {
        Requestor { timeout_secs, ..self }
    }

    /// The budget cap, in the currency's smallest unit.
    pub fn with_max_budget_gnt(self, budget: u64) -> (r: Requestor)
        ensures
            r.budget == budget,
            r.name == self.name,
            r.image_type == self.image_type,
            r.location == self.location,
            r.constraints == self.constraints,
            r.tasks == self.tasks,
            r.timeout_secs == self.timeout_secs,
    {
        Requestor { budget, ..self }
    }

    pub fn with_tasks(self, tasks: Vec<CommandList>) -> (r: Requestor)
        ensures
            r.tasks == tasks,
            r.name == self.name,
            r.image_type == self.image_type,
            r.location == self.location,
            r.constraints == self.constraints,
            r.timeout_secs == self.timeout_secs,
            r.budget == self.budget,
    {
        Requestor { tasks, ..self }
    }

    /// The properties of the demand this configuration publishes: the node
    /// name, the task package to run, and an expiration ten minutes from
    /// the caller's clock reading.
    pub fn demand_properties(&self, task_package: String, now_millis: i64) -> (r: DemandProperties)
        requires
            now_millis + 600000 <= i64::MAX,
        ensures
            r.node_name@ == self.name@,
            r.task_package == task_package,
            r.expiration_millis == now_millis + 600000,
    {
        DemandProperties {
            node_name: self.name.clone(),
            task_package,
            expiration_millis: now_millis + 600000,
        }
    }
}

} // verus!
