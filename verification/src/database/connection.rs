//! A database and the requests it takes.
use crate::database::request::RequestRun;
use crate::database::request::RequestState;
use crate::database::row::Value;
use crate::database::sequence::SequenceRun;
use crate::database::sequence::SequenceState;
use crate::database::statement::Parameters;
use crate::database::statement::StatementRun;
use crate::database::statement::StatementState;
use vstd::prelude::*;

verus! {

/// The key marks its parameter itself.
pub open spec fn is_marked(key: Seq<char>) -> bool {
    key.len() > 0 && (key[0] == ':' || key[0] == '@' || key[0] == '$')
}

/// The parameter that `key` stands for: the key itself where it marks its parameter, otherwise
/// the key after a colon.
pub open spec fn parameter(key: Seq<char>) -> Seq<char> {
    if is_marked(key) {
        key
    } else {
        ":"@ + key
    }
}

/// The name of the parameter that `key` stands for.
pub fn parameter_name(key: String) -> (r: String)
    ensures
        r@ == parameter(key@),
        is_name_for(r@, key@),
{
    proof {
        name_of_parameter(key@);
    }
    if !key.as_str().is_empty() {
        let first: char = key.as_str().get_char(0);
        if first == ':' || first == '@' || first == '$' {
            return key;
        }
    }
    ":".to_owned().concat(key.as_str())
}

/// `bound` are the values of `given`, each under the name that its key stands for.
pub open spec fn is_named(bound: Seq<(String, Value)>, given: Seq<(String, Value)>) -> bool {
    &&& bound.len() == given.len()
    &&& forall|i: int|
        0 <= i < given.len() ==> (#[trigger] bound[i]).0@ == parameter(given[i].0@) && bound[i].1
            == given[i].1
}

/// Naming a parameter is idempotent: a name stands for itself.
pub proof fn parameter_stands_for_itself(key: Seq<char>)
    ensures
        is_marked(parameter(key)),
        parameter(parameter(key)) == parameter(key),
{
    reveal_strlit(":");
    if !is_marked(key) {
        assert(parameter(key)[0] == ':');
    }
}

/// `name` is what `key` binds: the key as it is where it starts with a colon, an at sign or a
/// dollar sign, and otherwise a colon and then the key.
pub open spec fn is_name_for(name: Seq<char>, key: Seq<char>) -> bool {
    if key.len() > 0 && (key[0] == ':' || key[0] == '@' || key[0] == '$') {
        name == key
    } else {
        name.len() == key.len() + 1 && name[0] == ':' && name.skip(1) == key
    }
}

/// Every value given is bound, in order, under the name that its key stands for.
pub open spec fn binds_each(bound: Seq<(String, Value)>, given: Seq<(String, Value)>) -> bool {
    &&& bound.len() == given.len()
    &&& forall|i: int|
        0 <= i < given.len() ==> is_name_for((#[trigger] bound[i]).0@, given[i].0@) && bound[i].1
            == given[i].1
}

/// The parameter of a key is named after it: marks in front are kept, and a key without one gets a
/// colon.
pub proof fn name_of_parameter(key: Seq<char>)
    ensures
        is_name_for(parameter(key), key),
{
    reveal_strlit(":");
    if !is_marked(key) {
        assert(parameter(key).skip(1) =~= key);
    }
}

/// Named values are bound each under its name.
pub proof fn named_values_are_bound(bound: Seq<(String, Value)>, given: Seq<(String, Value)>)
    requires
        is_named(bound, given),
    ensures
        binds_each(bound, given),
{
    assert forall|i: int| 0 <= i < given.len() implies is_name_for(
        (#[trigger] bound[i]).0@,
        given[i].0@,
    ) && bound[i].1 == given[i].1 by {
        name_of_parameter(given[i].0@);
    }
}

/// A step of opening a database.
#[derive(Debug)]
pub enum OpenCall {
    /// Open the file.
    Open(String),
    /// Register the order of the readings of Chinese text under the name, or its reverse.
    CreateCollation { name: String, reversed: bool },
}

/// An [`OpenCall`] with its text.
pub enum OpenTask {
    Open(Seq<char>),
    CreateCollation { name: Seq<char>, reversed: bool },
}

impl View for OpenCall {
    type V = OpenTask;

    open spec fn view(&self) -> OpenTask {
        match self {
            OpenCall::Open(path) => OpenTask::Open(path@),
            OpenCall::CreateCollation { name, reversed } => OpenTask::CreateCollation {
                name: name@,
                reversed: *reversed,
            },
        }
    }
}

/// A step of opening a database, and whether its failure is that of the opening.
#[derive(Debug)]
pub struct OpenStep {
    pub call: OpenCall,
    pub required: bool,
}

/// A database: requests on it run one at a time.
#[derive(Debug)]
pub struct Database {
    workers: usize,
}

impl Database {
    /// How many requests may run at a time.
    pub closed spec fn concurrency(&self) -> nat {
        self.workers as nat
    }

    /// The steps that open the database at `path`, and the database that they open. The
    /// collations may fail: statements that name them then do.
    pub fn new(path: String) -> (r: (Self, Vec<OpenStep>))
        ensures
            r.0.concurrency() == 1,
            r.1@.len() == 3,
            r.1@[0].required && r.1@[0].call@ == OpenTask::Open(path@),
            !r.1@[1].required && r.1@[1].call@ == (OpenTask::CreateCollation {
                name: "pinyin_desc"@,
                reversed: true,
            }),
            !r.1@[2].required && r.1@[2].call@ == (OpenTask::CreateCollation {
                name: "pinyin_asc"@,
                reversed: false,
            }),
    {
        let mut steps: Vec<OpenStep> = Vec::new();
        steps.push(OpenStep { call: OpenCall::Open(path), required: true });
        steps.push(
            OpenStep {
                call: OpenCall::CreateCollation { name: "pinyin_desc".to_owned(), reversed: true },
                required: false,
            },
        );
        steps.push(
            OpenStep {
                call: OpenCall::CreateCollation { name: "pinyin_asc".to_owned(), reversed: false },
                required: false,
            },
        );
        (Database { workers: 1 }, steps)
    }

    /// How many requests may run at a time.
    pub fn workers(&self) -> (r: usize)
        ensures
            r == self.concurrency(),
    {
        self.workers
    }

    /// A single statement with named parameters.
    pub fn exec_named(&self, sql: String, parameters: Vec<(String, Value)>) -> (r: StatementRun)
        ensures
            r@ == StatementState::Lock,
            r.text() == sql@,
            r.bound() matches Parameters::Named(bound) && is_named(bound@, parameters@)
                && binds_each(bound@, parameters@),
    {
        let ghost all = parameters@;
        let mut rest: Vec<(String, Value)> = parameters;
        let mut bound: Vec<(String, Value)> = Vec::new();
        while rest.len() > 0
            invariant
                bound@.len() + rest@.len() == all.len(),
                rest@ == all.skip(bound@.len() as int),
                forall|i: int|
                    0 <= i < bound@.len() ==> (#[trigger] bound@[i]).0@ == parameter(all[i].0@)
                        && bound@[i].1 == all[i].1,
            decreases rest@.len(),
        {
            let (key, value) = rest.remove(0);
            assert((key, value) == all[bound@.len() as int]);
            bound.push((parameter_name(key), value));
            assert(rest@ =~= all.skip(bound@.len() as int));
        }
        proof {
            named_values_are_bound(bound@, all);
        }
        StatementRun::new(sql, Parameters::Named(bound))
    }

    /// A single statement with positional (`?`) parameters.
    pub fn exec(&self, sql: String, parameters: Vec<Value>) -> (r: StatementRun)
        ensures
            r@ == StatementState::Lock,
            r.text() == sql@,
            r.bound() == Parameters::Positional(parameters),
    {
        StatementRun::new(sql, Parameters::Positional(parameters))
    }

    /// The statements of a text.
    pub fn execute_sql(&self, sql: String) -> (r: RequestRun)
        ensures
            r@ == RequestState::Lock,
            r.text() == sql@,
            !r.is_transaction(),
    {
        RequestRun::new(sql, false)
    }

    /// The statements of a text as one transaction.
    pub fn execute_transaction(&mut self, sql: String) -> (r: RequestRun)
        ensures
            r@ == RequestState::Lock,
            r.text() == sql@,
            r.is_transaction(),
            *final(self) == *old(self),
    {
        RequestRun::new(sql, true)
    }

    /// Several statements, of which the last gives the rows.
    pub fn execute_sqls(&self, sqls: Vec<String>) -> (r: SequenceRun)
        ensures
            r@ == SequenceState::Lock,
            r.texts() == sqls@,
    {
        SequenceRun::new(sqls)
    }
}

/// A step of opening is known by its own text.
pub proof fn step_is_its_text(call: OpenCall)
    ensures
        match call {
            OpenCall::Open(path) => call@ == OpenTask::Open(path@),
            OpenCall::CreateCollation { name, reversed } => call@ == (OpenTask::CreateCollation {
                name: name@,
                reversed,
            }),
        },
{
}

} // verus!
