//! One script instance: its source, its running state and its dispatch
//! registry. Reading files and executing scripts happen outside; their
//! outcomes come in as arguments.

use vstd::prelude::*;
use crate::registry::{Plugin, RinningState};

verus! {

/// Why an instance operation failed.
#[derive(Debug, PartialEq, Eq)]
pub enum LuaVMError {
    /// The script file could not be read.
    LoadFile { reason: String },
    /// The operation needs a script that was never loaded.
    NotLoaded,
    /// The guest code faulted while it ran.
    LuaRuntime { reason: String },
}

/// The running state of an interpreter.
pub struct LuaVM {
    pub running_state: RinningState,
}

impl LuaVM {
    pub fn new() -> (r: LuaVM)
        ensures
            r.running_state == RinningState::Unloaded,
    {
        LuaVM { running_state: RinningState::Unloaded }
    }

    pub fn is_running(&self) -> (r: bool)
        ensures
            r == (self.running_state == RinningState::Running),
    {
        match self.running_state {
            RinningState::Running => true,
            _ => false,
        }
    }

    /// Records the outcome of executing the current script: success makes
    /// the interpreter running, a guest fault leaves the state as it was.
    pub fn run(&mut self, outcome: Result<(), String>) -> (r: Result<(), LuaVMError>)
        ensures
            match outcome {
                Ok(()) => r is Ok && final(self).running_state == RinningState::Running,
                Err(reason) => r == Err::<(), LuaVMError>(LuaVMError::LuaRuntime { reason })
                    && *final(self) == *old(self),
            },
    {
        match outcome {
            Ok(()) => {
                self.running_state = RinningState::Running;
                Ok(())
            },
            Err(reason) => Err(LuaVMError::LuaRuntime { reason }),
        }
    }
}

/// The source of an instance: its name, the path it was read from and the
/// text that was read.
pub struct LuaHandlerData {
    pub name: String,
    pub file_path: Option<String>,
    pub script: Option<String>,
}

/// One instance: source, interpreter state, dispatch registry, and the
/// serial number that background tasks use to find it again.
pub struct LuaHandler {
    pub data: LuaHandlerData,
    pub luavm: LuaVM,
    pub plugin: Plugin,
    pub serial: u64,
}

impl LuaHandler {
    pub open spec fn wf(&self) -> bool {
        &&& self.plugin.wf()
        &&& (self.data.script is Some <==> self.data.file_path is Some)
        &&& (self.luavm.running_state == RinningState::Unloaded <==> self.data.script is None)
    }

    /// A registry with no listeners and no armed source.
    pub open spec fn registry_is_empty(p: Plugin) -> bool {
        &&& p.wf()
        &&& forall|k: crate::registry::EventType| p.listeners(k).len() == 0 && !p.armed(k)
        &&& p.intervals() == Map::<u64, Seq<u64>>::empty()
    }

    /// `self` was just loaded from `path` with `text`, under `serial`, with a
    /// fresh registry and nothing run yet.
    pub open spec fn is_fresh_load(
        &self,
        name: Seq<char>,
        path: Seq<char>,
        text: Seq<char>,
        serial: u64,
    ) -> bool {
        &&& self.wf()
        &&& self.data.name@ == name
        &&& self.data.file_path matches Some(p) && p@ == path
        &&& self.data.script matches Some(s) && s@ == text
        &&& self.luavm.running_state == RinningState::Loaded
        &&& self.serial == serial
        &&& Self::registry_is_empty(self.plugin)
    }

    pub fn new(name: &str, serial: u64) -> (r: LuaHandler)
        ensures
            r.wf(),
            r.data.name@ == name@,
            r.data.file_path is None,
            r.data.script is None,
            r.luavm.running_state == RinningState::Unloaded,
            r.serial == serial,
            Self::registry_is_empty(r.plugin),
    {
        LuaHandler {
            data: LuaHandlerData { name: name.to_owned(), file_path: None, script: None },
            luavm: LuaVM::new(),
            plugin: Plugin::new(),
            serial,
        }
    }

    /// Records the outcome of reading the script file at `file_path`. On
    /// success the text replaces the source and the instance is `Loaded`.
    pub fn load_file(&mut self, file_path: &str, read: Result<String, String>) -> (r: Result<
        (),
        LuaVMError,
    >)
        requires
            old(self).wf(),
        ensures
            final(self).wf(),
            match read {
                Err(reason) => r == Err::<(), LuaVMError>(LuaVMError::LoadFile { reason })
                    && *final(self) == *old(self),
                Ok(text) => {
                    &&& r is Ok
                    &&& final(self).data.name == old(self).data.name
                    &&& final(self).data.file_path matches Some(p) && p@ == file_path@
                    &&& final(self).data.script == Some(text)
                    &&& final(self).luavm.running_state == RinningState::Loaded
                    &&& final(self).plugin == old(self).plugin
                    &&& final(self).serial == old(self).serial
                },
            },
    {
        match read {
            Err(reason) => Err(LuaVMError::LoadFile { reason }),
            Ok(text) => {
                self.data.file_path = Some(file_path.to_owned());
                self.data.script = Some(text);
                self.luavm.running_state = RinningState::Loaded;
                Ok(())
            },
        }
    }

    /// The script text to execute, or `NotLoaded` when none was loaded.
    pub fn run(&self) -> (r: Result<String, LuaVMError>)
        ensures
            match self.data.script {
                None => r == Err::<String, LuaVMError>(LuaVMError::NotLoaded),
                Some(s) => r == Ok::<String, LuaVMError>(s),
            },
    {
        match &self.data.script {
            None => Err(LuaVMError::NotLoaded),
            Some(s) => Ok(s.clone()),
        }
    }

    /// Records the outcome of executing the script handed out by `run`.
    pub fn finish_run(&mut self, outcome: Result<(), String>) -> (r: Result<(), LuaVMError>)
        requires
            old(self).wf(),
            old(self).data.script is Some,
        ensures
            final(self).wf(),
            final(self).data == old(self).data,
            final(self).plugin == old(self).plugin,
            final(self).serial == old(self).serial,
            match outcome {
                Ok(()) => r is Ok && final(self).luavm.running_state == RinningState::Running,
                Err(reason) => r == Err::<(), LuaVMError>(LuaVMError::LuaRuntime { reason })
                    && final(self).luavm == old(self).luavm,
            },
    {
        self.luavm.run(outcome)
    }

    /// The path to read again for a reload, or `NotLoaded` when the instance
    /// was never loaded from a file.
    pub fn reload(&self) -> (r: Result<String, LuaVMError>)
        ensures
            match self.data.file_path {
                None => r == Err::<String, LuaVMError>(LuaVMError::NotLoaded),
                Some(p) => r == Ok::<String, LuaVMError>(p),
            },
    {
        match &self.data.file_path {
            None => Err(LuaVMError::NotLoaded),
            Some(p) => Ok(p.clone()),
        }
    }
}

} // verus!
