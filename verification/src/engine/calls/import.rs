//! Calls by name, and the one way in for all of them.
use vstd::prelude::*;
use super::files::{fault, file_call, file_does, file_needs, file_wants, FileCall};
use super::memory::{heap_call, heap_effect, HeapCall};
use super::others::{other_call, other_does, other_needs, other_wants, OtherCall};
use super::strings::{text_call, text_effect, TextCall};
use crate::engine::runtime::{same, Machine, Runtime};
use crate::engine::world::{
    arguments, came_to, stack_there, take_arguments, world, Action, Answer, Deed, Given, Maths,
    Need, Want, World,
};
use crate::xrt::cpu::{give, Cpu};
use crate::xrt::mem::Mem;

verus! {

/// A call.
#[derive(Debug, Clone, Copy, PartialEq, Eq, Structural)]
pub enum Call {
    /// For a block of the heap.
    Heap(HeapCall),
    /// On bytes or text.
    Text(TextCall),
    /// On a file.
    File(FileCall),
    /// Any other.
    Other(OtherCall),
}

/// The calls on blocks, by name.
pub open spec fn heap_named(name: Seq<char>) -> Option<Call> {
    if name == "malloc"@ || name == "ELQmalloc"@ {
        Some(Call::Heap(HeapCall::Block))
    } else if name == "calloc"@ {
        Some(Call::Heap(HeapCall::Zeroed))
    } else if name == "realloc"@ || name == "ELQrealloc"@ {
        Some(Call::Heap(HeapCall::Resize))
    } else if name == "free"@ || name == "ELQfree"@ {
        Some(Call::Heap(HeapCall::Release))
    } else {
        None
    }
}

fn find_heap_named(name: &str) -> (r: Option<Call>)
    ensures
        r == heap_named(name@),
{
    if same(name, "malloc") || same(name, "ELQmalloc") {
        Some(Call::Heap(HeapCall::Block))
    } else if same(name, "calloc") {
        Some(Call::Heap(HeapCall::Zeroed))
    } else if same(name, "realloc") || same(name, "ELQrealloc") {
        Some(Call::Heap(HeapCall::Resize))
    } else if same(name, "free") || same(name, "ELQfree") {
        Some(Call::Heap(HeapCall::Release))
    } else {
        None
    }
}

/// The calls on bytes and text, by name.
pub open spec fn text_named(name: Seq<char>) -> Option<Call> {
    if name == "memcpy"@ || name == "memmove"@ {
        Some(Call::Text(TextCall::Copy))
    } else if name == "memset"@ {
        Some(Call::Text(TextCall::Fill))
    } else if name == "memcmp"@ {
        Some(Call::Text(TextCall::CompareBytes))
    } else if name == "strlen"@ {
        Some(Call::Text(TextCall::Length))
    } else if name == "strcpy"@ {
        Some(Call::Text(TextCall::CopyText))
    } else if name == "strncpy"@ {
        Some(Call::Text(TextCall::CopyPart))
    } else if name == "strcat"@ || name == "ELQscscat"@ {
        Some(Call::Text(TextCall::Join))
    } else if name == "strncat"@ {
        Some(Call::Text(TextCall::JoinPart))
    } else if name == "strcmp"@ {
        Some(Call::Text(TextCall::Compare))
    } else if name == "ELQstricmp"@ {
        Some(Call::Text(TextCall::CompareFolded))
    } else if name == "strncmp"@ {
        Some(Call::Text(TextCall::ComparePart))
    } else if name == "strchr"@ {
        Some(Call::Text(TextCall::First))
    } else if name == "strrchr"@ {
        Some(Call::Text(TextCall::Last))
    } else if name == "strstr"@ {
        Some(Call::Text(TextCall::Find))
    } else if name == "strpbrk"@ {
        Some(Call::Text(TextCall::FindAny))
    } else if name == "strspn"@ {
        Some(Call::Text(TextCall::Span))
    } else if name == "strcspn"@ {
        Some(Call::Text(TextCall::SpanNot))
    } else if name == "__strtol_internal"@ || name == "__strtoul_internal"@ {
        Some(Call::Text(TextCall::Number))
    } else {
        None
    }
}

fn find_text_named(name: &str) -> (r: Option<Call>)
    ensures
        r == text_named(name@),
{
    if same(name, "memcpy") || same(name, "memmove") {
        Some(Call::Text(TextCall::Copy))
    } else if same(name, "memset") {
        Some(Call::Text(TextCall::Fill))
    } else if same(name, "memcmp") {
        Some(Call::Text(TextCall::CompareBytes))
    } else if same(name, "strlen") {
        Some(Call::Text(TextCall::Length))
    } else if same(name, "strcpy") {
        Some(Call::Text(TextCall::CopyText))
    } else if same(name, "strncpy") {
        Some(Call::Text(TextCall::CopyPart))
    } else if same(name, "strcat") || same(name, "ELQscscat") {
        Some(Call::Text(TextCall::Join))
    } else if same(name, "strncat") {
        Some(Call::Text(TextCall::JoinPart))
    } else if same(name, "strcmp") {
        Some(Call::Text(TextCall::Compare))
    } else if same(name, "ELQstricmp") {
        Some(Call::Text(TextCall::CompareFolded))
    } else if same(name, "strncmp") {
        Some(Call::Text(TextCall::ComparePart))
    } else if same(name, "strchr") {
        Some(Call::Text(TextCall::First))
    } else if same(name, "strrchr") {
        Some(Call::Text(TextCall::Last))
    } else if same(name, "strstr") {
        Some(Call::Text(TextCall::Find))
    } else if same(name, "strpbrk") {
        Some(Call::Text(TextCall::FindAny))
    } else if same(name, "strspn") {
        Some(Call::Text(TextCall::Span))
    } else if same(name, "strcspn") {
        Some(Call::Text(TextCall::SpanNot))
    } else if same(name, "__strtol_internal") || same(name, "__strtoul_internal") {
        Some(Call::Text(TextCall::Number))
    } else {
        None
    }
}

/// The calls on files, by name.
pub open spec fn file_named(name: Seq<char>) -> Option<Call> {
    if name == "fopen"@ || name == "ELQfopen"@ {
        Some(Call::File(FileCall::Open))
    } else if name == "fclose"@ || name == "ELQfclose"@ {
        Some(Call::File(FileCall::Close))
    } else if name == "fread"@ || name == "ELQfread"@ {
        Some(Call::File(FileCall::Read))
    } else if name == "fwrite"@ || name == "ELQfwrite"@ {
        Some(Call::File(FileCall::Write))
    } else if name == "fgetc"@ {
        Some(Call::File(FileCall::GetByte))
    } else if name == "fgets"@ || name == "ELQfgets"@ {
        Some(Call::File(FileCall::GetLine))
    } else if name == "fputc"@ {
        Some(Call::File(FileCall::PutByte))
    } else if name == "putchar"@ {
        Some(Call::File(FileCall::PutConsole))
    } else if name == "fputs"@ || name == "ELQfputs"@ {
        Some(Call::File(FileCall::PutText))
    } else if name == "fseek"@ || name == "ELQfseek"@ {
        Some(Call::File(FileCall::Seek))
    } else if name == "ftell"@ || name == "ELQftell"@ {
        Some(Call::File(FileCall::Tell))
    } else if name == "rewind"@ || name == "ELQrewind"@ {
        Some(Call::File(FileCall::Rewind))
    } else if name == "feof"@ {
        Some(Call::File(FileCall::AtEnd))
    } else if name == "fflush"@ {
        Some(Call::File(FileCall::Flush))
    } else if name == "remove"@ || name == "ELQremove"@ {
        Some(Call::File(FileCall::Remove))
    } else if name == "printf"@ {
        Some(Call::File(FileCall::Print))
    } else if name == "fprintf"@ {
        Some(Call::File(FileCall::PrintFile))
    } else if name == "sprintf"@ {
        Some(Call::File(FileCall::PrintMemory))
    } else if name == "snprintf"@ {
        Some(Call::File(FileCall::PrintLimited))
    } else if name == "sscanf"@ {
        Some(Call::File(FileCall::Scan))
    } else {
        None
    }
}

fn find_file_named(name: &str) -> (r: Option<Call>)
    ensures
        r == file_named(name@),
{
    if same(name, "fopen") || same(name, "ELQfopen") {
        Some(Call::File(FileCall::Open))
    } else if same(name, "fclose") || same(name, "ELQfclose") {
        Some(Call::File(FileCall::Close))
    } else if same(name, "fread") || same(name, "ELQfread") {
        Some(Call::File(FileCall::Read))
    } else if same(name, "fwrite") || same(name, "ELQfwrite") {
        Some(Call::File(FileCall::Write))
    } else if same(name, "fgetc") {
        Some(Call::File(FileCall::GetByte))
    } else if same(name, "fgets") || same(name, "ELQfgets") {
        Some(Call::File(FileCall::GetLine))
    } else if same(name, "fputc") {
        Some(Call::File(FileCall::PutByte))
    } else if same(name, "putchar") {
        Some(Call::File(FileCall::PutConsole))
    } else if same(name, "fputs") || same(name, "ELQfputs") {
        Some(Call::File(FileCall::PutText))
    } else if same(name, "fseek") || same(name, "ELQfseek") {
        Some(Call::File(FileCall::Seek))
    } else if same(name, "ftell") || same(name, "ELQftell") {
        Some(Call::File(FileCall::Tell))
    } else if same(name, "rewind") || same(name, "ELQrewind") {
        Some(Call::File(FileCall::Rewind))
    } else if same(name, "feof") {
        Some(Call::File(FileCall::AtEnd))
    } else if same(name, "fflush") {
        Some(Call::File(FileCall::Flush))
    } else if same(name, "remove") || same(name, "ELQremove") {
        Some(Call::File(FileCall::Remove))
    } else if same(name, "printf") {
        Some(Call::File(FileCall::Print))
    } else if same(name, "fprintf") {
        Some(Call::File(FileCall::PrintFile))
    } else if same(name, "sprintf") {
        Some(Call::File(FileCall::PrintMemory))
    } else if same(name, "snprintf") {
        Some(Call::File(FileCall::PrintLimited))
    } else if same(name, "sscanf") {
        Some(Call::File(FileCall::Scan))
    } else {
        None
    }
}

/// The calls on directories, modules, time and the process, by name.
pub open spec fn system_named(name: Seq<char>) -> Option<Call> {
    if name == "opendir"@ {
        Some(Call::Other(OtherCall::OpenDir))
    } else if name == "readdir"@ {
        Some(Call::Other(OtherCall::ReadDir))
    } else if name == "closedir"@ {
        Some(Call::Other(OtherCall::CloseDir))
    } else if name == "dlopen"@ {
        Some(Call::Other(OtherCall::Module))
    } else if name == "dlsym"@ {
        Some(Call::Other(OtherCall::Routine))
    } else if name == "dlerror"@ {
        Some(Call::Other(OtherCall::LoaderError))
    } else if name == "mmap"@ {
        Some(Call::Other(OtherCall::MapFile))
    } else if name == "__errno_location"@ {
        Some(Call::Other(OtherCall::Errno))
    } else if name == "time"@ {
        Some(Call::Other(OtherCall::Time))
    } else if name == "gettimeofday"@ {
        Some(Call::Other(OtherCall::TimeOfDay))
    } else if name == "fileno"@ {
        Some(Call::Other(OtherCall::FirstArg))
    } else if name == "localtime_r"@ || name == "gmtime_r"@ {
        Some(Call::Other(OtherCall::SecondArg))
    } else if name == "gethostname"@ {
        Some(Call::Other(OtherCall::HostName))
    } else if name == "rand"@ {
        Some(Call::Other(OtherCall::Random))
    } else if name == "srand"@ {
        Some(Call::Other(OtherCall::Seed))
    } else if name == "abort"@ {
        Some(Call::Other(OtherCall::Abort))
    } else if name == "exit"@ || name == "_exit"@ {
        Some(Call::Other(OtherCall::Exit))
    } else if name == "getpid"@ {
        Some(Call::Other(OtherCall::Always(1000)))
    } else if name == "dlclose"@ || name == "munmap"@ || name == "nanosleep"@ || name == "getenv"@
        || name == "__gmon_start__"@ || name == "_Jv_RegisterClasses"@ || name == "shmdt"@
        || name == "shmctl"@ || name == "semop"@ || name == "semctl"@ {
        Some(Call::Other(OtherCall::Always(0)))
    } else if name == "shmget"@ || name == "semget"@ || name == "shmat"@ {
        Some(Call::Other(OtherCall::Always(u32::MAX)))
    } else {
        None
    }
}

fn find_system_named(name: &str) -> (r: Option<Call>)
    ensures
        r == system_named(name@),
{
    if same(name, "opendir") {
        Some(Call::Other(OtherCall::OpenDir))
    } else if same(name, "readdir") {
        Some(Call::Other(OtherCall::ReadDir))
    } else if same(name, "closedir") {
        Some(Call::Other(OtherCall::CloseDir))
    } else if same(name, "dlopen") {
        Some(Call::Other(OtherCall::Module))
    } else if same(name, "dlsym") {
        Some(Call::Other(OtherCall::Routine))
    } else if same(name, "dlerror") {
        Some(Call::Other(OtherCall::LoaderError))
    } else if same(name, "mmap") {
        Some(Call::Other(OtherCall::MapFile))
    } else if same(name, "__errno_location") {
        Some(Call::Other(OtherCall::Errno))
    } else if same(name, "time") {
        Some(Call::Other(OtherCall::Time))
    } else if same(name, "gettimeofday") {
        Some(Call::Other(OtherCall::TimeOfDay))
    } else if same(name, "fileno") {
        Some(Call::Other(OtherCall::FirstArg))
    } else if same(name, "localtime_r") || same(name, "gmtime_r") {
        Some(Call::Other(OtherCall::SecondArg))
    } else if same(name, "gethostname") {
        Some(Call::Other(OtherCall::HostName))
    } else if same(name, "rand") {
        Some(Call::Other(OtherCall::Random))
    } else if same(name, "srand") {
        Some(Call::Other(OtherCall::Seed))
    } else if same(name, "abort") {
        Some(Call::Other(OtherCall::Abort))
    } else if same(name, "exit") || same(name, "_exit") {
        Some(Call::Other(OtherCall::Exit))
    } else if same(name, "getpid") {
        Some(Call::Other(OtherCall::Always(1000)))
    } else if same(name, "dlclose") || same(name, "munmap") || same(name, "nanosleep")
        || same(name, "getenv") || same(name, "__gmon_start__")
        || same(name, "_Jv_RegisterClasses") || same(name, "shmdt") || same(name, "shmctl")
        || same(name, "semop") || same(name, "semctl") {
        Some(Call::Other(OtherCall::Always(0)))
    } else if same(name, "shmget") || same(name, "semget") || same(name, "shmat") {
        Some(Call::Other(OtherCall::Always(u32::MAX)))
    } else {
        None
    }
}

/// The calls on threads, by name.
pub open spec fn thread_named(name: Seq<char>) -> Option<Call> {
    if name == "pthread_mutex_init"@ || name == "pthread_mutex_destroy"@
        || name == "pthread_mutex_lock"@ || name == "pthread_mutex_trylock"@
        || name == "pthread_mutex_unlock"@ || name == "pthread_cond_init"@
        || name == "pthread_cond_destroy"@ || name == "pthread_detach"@ {
        Some(Call::Other(OtherCall::Always(0)))
    } else if name == "pthread_cond_signal"@ || name == "pthread_cond_broadcast"@ {
        Some(Call::Other(OtherCall::Signal))
    } else if name == "pthread_cond_wait"@ || name == "pthread_cond_timedwait"@ {
        Some(Call::Other(OtherCall::Wait))
    } else if name == "pthread_self"@ {
        Some(Call::Other(OtherCall::Myself))
    } else if name == "pthread_create"@ {
        Some(Call::Other(OtherCall::Start))
    } else if name == "pthread_join"@ {
        Some(Call::Other(OtherCall::JoinThread))
    } else {
        None
    }
}

fn find_thread_named(name: &str) -> (r: Option<Call>)
    ensures
        r == thread_named(name@),
{
    if same(name, "pthread_mutex_init") || same(name, "pthread_mutex_destroy")
        || same(name, "pthread_mutex_lock") || same(name, "pthread_mutex_trylock")
        || same(name, "pthread_mutex_unlock") || same(name, "pthread_cond_init")
        || same(name, "pthread_cond_destroy") || same(name, "pthread_detach") {
        Some(Call::Other(OtherCall::Always(0)))
    } else if same(name, "pthread_cond_signal") || same(name, "pthread_cond_broadcast") {
        Some(Call::Other(OtherCall::Signal))
    } else if same(name, "pthread_cond_wait") || same(name, "pthread_cond_timedwait") {
        Some(Call::Other(OtherCall::Wait))
    } else if same(name, "pthread_self") {
        Some(Call::Other(OtherCall::Myself))
    } else if same(name, "pthread_create") {
        Some(Call::Other(OtherCall::Start))
    } else if same(name, "pthread_join") {
        Some(Call::Other(OtherCall::JoinThread))
    } else {
        None
    }
}

/// The calls on numbers, by name.
pub open spec fn number_named(name: Seq<char>) -> Option<Call> {
    if name == "__divsi3"@ {
        Some(Call::Other(OtherCall::Divide))
    } else if name == "__udivsi3"@ {
        Some(Call::Other(OtherCall::DivideUnsigned))
    } else if name == "__modsi3"@ {
        Some(Call::Other(OtherCall::Remainder))
    } else if name == "__umodsi3"@ {
        Some(Call::Other(OtherCall::RemainderUnsigned))
    } else if name == "__strtod_internal"@ {
        Some(Call::Other(OtherCall::ToReal))
    } else if name == "sqrt"@ {
        Some(Call::Other(OtherCall::Function(Maths::Sqrt)))
    } else if name == "sin"@ {
        Some(Call::Other(OtherCall::Function(Maths::Sin)))
    } else if name == "cos"@ {
        Some(Call::Other(OtherCall::Function(Maths::Cos)))
    } else if name == "tan"@ {
        Some(Call::Other(OtherCall::Function(Maths::Tan)))
    } else if name == "atan"@ {
        Some(Call::Other(OtherCall::Function(Maths::Atan)))
    } else if name == "atan2"@ {
        Some(Call::Other(OtherCall::Function(Maths::Atan2)))
    } else if name == "exp"@ {
        Some(Call::Other(OtherCall::Function(Maths::Exp)))
    } else if name == "log"@ {
        Some(Call::Other(OtherCall::Function(Maths::Log)))
    } else if name == "log10"@ {
        Some(Call::Other(OtherCall::Function(Maths::Log10)))
    } else if name == "pow"@ {
        Some(Call::Other(OtherCall::Function(Maths::Pow)))
    } else if name == "floor"@ {
        Some(Call::Other(OtherCall::Function(Maths::Floor)))
    } else if name == "ceil"@ {
        Some(Call::Other(OtherCall::Function(Maths::Ceil)))
    } else if name == "fabs"@ {
        Some(Call::Other(OtherCall::Function(Maths::Fabs)))
    } else if name == "fmod"@ {
        Some(Call::Other(OtherCall::Function(Maths::Fmod)))
    } else {
        None
    }
}

fn find_number_named(name: &str) -> (r: Option<Call>)
    ensures
        r == number_named(name@),
{
    if same(name, "__divsi3") {
        Some(Call::Other(OtherCall::Divide))
    } else if same(name, "__udivsi3") {
        Some(Call::Other(OtherCall::DivideUnsigned))
    } else if same(name, "__modsi3") {
        Some(Call::Other(OtherCall::Remainder))
    } else if same(name, "__umodsi3") {
        Some(Call::Other(OtherCall::RemainderUnsigned))
    } else if same(name, "__strtod_internal") {
        Some(Call::Other(OtherCall::ToReal))
    } else if same(name, "sqrt") {
        Some(Call::Other(OtherCall::Function(Maths::Sqrt)))
    } else if same(name, "sin") {
        Some(Call::Other(OtherCall::Function(Maths::Sin)))
    } else if same(name, "cos") {
        Some(Call::Other(OtherCall::Function(Maths::Cos)))
    } else if same(name, "tan") {
        Some(Call::Other(OtherCall::Function(Maths::Tan)))
    } else if same(name, "atan") {
        Some(Call::Other(OtherCall::Function(Maths::Atan)))
    } else if same(name, "atan2") {
        Some(Call::Other(OtherCall::Function(Maths::Atan2)))
    } else if same(name, "exp") {
        Some(Call::Other(OtherCall::Function(Maths::Exp)))
    } else if same(name, "log") {
        Some(Call::Other(OtherCall::Function(Maths::Log)))
    } else if same(name, "log10") {
        Some(Call::Other(OtherCall::Function(Maths::Log10)))
    } else if same(name, "pow") {
        Some(Call::Other(OtherCall::Function(Maths::Pow)))
    } else if same(name, "floor") {
        Some(Call::Other(OtherCall::Function(Maths::Floor)))
    } else if same(name, "ceil") {
        Some(Call::Other(OtherCall::Function(Maths::Ceil)))
    } else if same(name, "fabs") {
        Some(Call::Other(OtherCall::Function(Maths::Fabs)))
    } else if same(name, "fmod") {
        Some(Call::Other(OtherCall::Function(Maths::Fmod)))
    } else {
        None
    }
}

/// A call by its name; none where there is no such call.
pub open spec fn named(name: Seq<char>) -> Option<Call> {
    if heap_named(name) is Some {
        heap_named(name)
    } else if text_named(name) is Some {
        text_named(name)
    } else if file_named(name) is Some {
        file_named(name)
    } else if system_named(name) is Some {
        system_named(name)
    } else if thread_named(name) is Some {
        thread_named(name)
    } else {
        number_named(name)
    }
}

/// Finds a call by its name.
pub fn call_named(name: &str) -> (r: Option<Call>)
    ensures
        r == named(name@),
{
    let r: Option<Call> = find_heap_named(name);
    if r.is_some() {
        return r;
    }
    let r: Option<Call> = find_text_named(name);
    if r.is_some() {
        return r;
    }
    let r: Option<Call> = find_file_named(name);
    if r.is_some() {
        return r;
    }
    let r: Option<Call> = find_system_named(name);
    if r.is_some() {
        return r;
    }
    let r: Option<Call> = find_thread_named(name);
    if r.is_some() {
        return r;
    }
    find_number_named(name)
}

/// What a call does, with arguments `a` and what it was told.
pub open spec fn call_does(call: Call, w: World, a: Seq<u32>, g: Given) -> (World, Deed) {
    match call {
        Call::Heap(k) => match heap_effect(k, w.rt.heap, w.m, a) {
            Some((heap, m, v)) => {
                let after = w.on(Machine { heap, ..w.rt }).with(m);
                (
                    match v {
                        Some(v) => after.give(v),
                        None => after,
                    },
                    Deed::Done,
                )
            },
            None => fault(w),
        },
        Call::Text(k) => match text_effect(k, w.m, a) {
            Some((m, v)) => (w.with(m).give(v), Deed::Done),
            None => fault(w),
        },
        Call::File(k) => file_does(k, w, a, g),
        Call::Other(k) => other_does(k, w, a, g),
    }
}

/// What a call does. Without a stack to take arguments from it cannot be made.
pub open spec fn does(call: Call, w: World, g: Given) -> (World, Deed) {
    if stack_there(w.r, w.m) {
        call_does(call, w, arguments(w.r, w.m), g)
    } else {
        fault(w)
    }
}

/// What a call needs to know.
pub open spec fn wants(call: Call, w: World) -> Want {
    if stack_there(w.r, w.m) {
        match call {
            Call::File(k) => file_wants(k, w, arguments(w.r, w.m)),
            Call::Other(k) => other_wants(k, w, arguments(w.r, w.m)),
            _ => Want::Nothing,
        }
    } else {
        Want::Nothing
    }
}

impl Runtime {
    /// Says what a call needs to know.
    pub fn needs(&self, call: Call, c: &Cpu, m: &Mem) -> (r: Need)
        ensures
            r@ == wants(call, world(self@, *c, m@)),
    {
        let a: Vec<u32> = match take_arguments(c, m) {
            Some(a) => a,
            None => {
                return Need::Nothing;
            },
        };
        match call {
            Call::File(k) => file_needs(k, self, m, a.as_slice()),
            Call::Other(k) => other_needs(k, self, m, a.as_slice()),
            _ => Need::Nothing,
        }
    }

    /// Makes a call, with what it was told.
    pub fn import(&mut self, call: Call, c: &mut Cpu, m: &mut Mem, g: &Answer) -> (r: Action)
        requires
            old(self)@.wf(),
        ensures
            came_to(
                old(self)@,
                *old(c),
                old(m)@,
                final(self)@,
                *final(c),
                final(m)@,
                r@,
                does(call, world(old(self)@, *old(c), old(m)@), g@),
            ),
    {
        let a: Vec<u32> = match take_arguments(c, m) {
            Some(a) => a,
            None => {
                return Action::Fault;
            },
        };
        match call {
            Call::Heap(k) => match heap_call(k, &mut self.heap, m, a.as_slice()) {
                Some(v) => {
                    match v {
                        Some(v) => {
                            give(c, v);
                        },
                        None => {},
                    }
                    Action::Done
                },
                None => Action::Fault,
            },
            Call::Text(k) => match text_call(k, m, a.as_slice()) {
                Some(v) => {
                    give(c, v);
                    Action::Done
                },
                None => Action::Fault,
            },
            Call::File(k) => file_call(k, self, c, m, a.as_slice(), g),
            Call::Other(k) => other_call(k, self, c, m, a.as_slice(), g),
        }
    }
}

} // verus!
