//! What the calls are known by.
use vstd::prelude::*;
use crate::engine::world::Maths;
use super::files::FileCall;
use super::import::{file_named, heap_named, number_named, Call};
use super::memory::HeapCall;
use super::others::OtherCall;

verus! {

/// The functions of numbers with a fraction, by their names.
pub proof fn functions_have_their_names()
    ensures
        number_named("sqrt"@) == Some(Call::Other(OtherCall::Function(Maths::Sqrt))),
        number_named("sin"@) == Some(Call::Other(OtherCall::Function(Maths::Sin))),
        number_named("cos"@) == Some(Call::Other(OtherCall::Function(Maths::Cos))),
        number_named("tan"@) == Some(Call::Other(OtherCall::Function(Maths::Tan))),
        number_named("atan"@) == Some(Call::Other(OtherCall::Function(Maths::Atan))),
        number_named("atan2"@) == Some(Call::Other(OtherCall::Function(Maths::Atan2))),
        number_named("exp"@) == Some(Call::Other(OtherCall::Function(Maths::Exp))),
        number_named("log"@) == Some(Call::Other(OtherCall::Function(Maths::Log))),
        number_named("log10"@) == Some(Call::Other(OtherCall::Function(Maths::Log10))),
        number_named("pow"@) == Some(Call::Other(OtherCall::Function(Maths::Pow))),
        number_named("floor"@) == Some(Call::Other(OtherCall::Function(Maths::Floor))),
        number_named("ceil"@) == Some(Call::Other(OtherCall::Function(Maths::Ceil))),
        number_named("fabs"@) == Some(Call::Other(OtherCall::Function(Maths::Fabs))),
        number_named("fmod"@) == Some(Call::Other(OtherCall::Function(Maths::Fmod))),
{
    reveal_strlit("__divsi3");
    reveal_strlit("__udivsi3");
    reveal_strlit("__modsi3");
    reveal_strlit("__umodsi3");
    reveal_strlit("__strtod_internal");
    reveal_strlit("sqrt");
    reveal_strlit("sin");
    reveal_strlit("cos");
    reveal_strlit("tan");
    reveal_strlit("atan");
    reveal_strlit("atan2");
    reveal_strlit("exp");
    reveal_strlit("log");
    reveal_strlit("log10");
    reveal_strlit("pow");
    reveal_strlit("floor");
    reveal_strlit("ceil");
    reveal_strlit("fabs");
    reveal_strlit("fmod");
    assert("__divsi3"@.len() == 8);
    assert("__udivsi3"@.len() == 9);
    assert("__modsi3"@.len() == 8);
    assert("__umodsi3"@.len() == 9);
    assert("__strtod_internal"@.len() == 17);
    assert("sqrt"@.len() == 4);
    assert("sin"@.len() == 3);
    assert("cos"@.len() == 3);
    assert("tan"@.len() == 3);
    assert("atan"@.len() == 4);
    assert("atan2"@.len() == 5);
    assert("exp"@.len() == 3);
    assert("log"@.len() == 3);
    assert("log10"@.len() == 5);
    assert("pow"@.len() == 3);
    assert("floor"@.len() == 5);
    assert("ceil"@.len() == 4);
    assert("fabs"@.len() == 4);
    assert("fmod"@.len() == 4);
    assert("cos"@[0] != "sin"@[0]);
    assert("tan"@[0] != "sin"@[0]);
    assert("tan"@[0] != "cos"@[0]);
    assert("atan"@[0] != "sqrt"@[0]);
    assert("exp"@[0] != "sin"@[0]);
    assert("exp"@[0] != "cos"@[0]);
    assert("exp"@[0] != "tan"@[0]);
    assert("log"@[0] != "sin"@[0]);
    assert("log"@[0] != "cos"@[0]);
    assert("log"@[0] != "tan"@[0]);
    assert("log"@[0] != "exp"@[0]);
    assert("log10"@[0] != "atan2"@[0]);
    assert("pow"@[0] != "sin"@[0]);
    assert("pow"@[0] != "cos"@[0]);
    assert("pow"@[0] != "tan"@[0]);
    assert("pow"@[0] != "exp"@[0]);
    assert("pow"@[0] != "log"@[0]);
    assert("floor"@[0] != "atan2"@[0]);
    assert("floor"@[0] != "log10"@[0]);
    assert("ceil"@[0] != "sqrt"@[0]);
    assert("ceil"@[0] != "atan"@[0]);
    assert("fabs"@[0] != "sqrt"@[0]);
    assert("fabs"@[0] != "atan"@[0]);
    assert("fabs"@[0] != "ceil"@[0]);
    assert("fmod"@[0] != "sqrt"@[0]);
    assert("fmod"@[0] != "atan"@[0]);
    assert("fmod"@[0] != "ceil"@[0]);
    assert("fmod"@[1] != "fabs"@[1]);
}

/// Files are opened, read, written and sought in by the engine's own names too.
pub proof fn engine_names_open_and_read()
    ensures
        file_named("ELQfopen"@) == Some(Call::File(FileCall::Open)),
        file_named("ELQfclose"@) == Some(Call::File(FileCall::Close)),
        file_named("ELQfread"@) == Some(Call::File(FileCall::Read)),
        file_named("ELQfwrite"@) == Some(Call::File(FileCall::Write)),
        file_named("ELQfputs"@) == Some(Call::File(FileCall::PutText)),
        file_named("ELQfseek"@) == Some(Call::File(FileCall::Seek)),
        file_named("ELQftell"@) == Some(Call::File(FileCall::Tell)),
        file_named("ELQrewind"@) == Some(Call::File(FileCall::Rewind)),
{
    reveal_strlit("fopen");
    reveal_strlit("ELQfopen");
    reveal_strlit("fclose");
    reveal_strlit("ELQfclose");
    reveal_strlit("fread");
    reveal_strlit("ELQfread");
    reveal_strlit("fwrite");
    reveal_strlit("ELQfwrite");
    reveal_strlit("fgetc");
    reveal_strlit("fgets");
    reveal_strlit("ELQfgets");
    reveal_strlit("fputc");
    reveal_strlit("putchar");
    reveal_strlit("fputs");
    reveal_strlit("ELQfputs");
    reveal_strlit("fseek");
    reveal_strlit("ELQfseek");
    reveal_strlit("ftell");
    reveal_strlit("ELQftell");
    reveal_strlit("rewind");
    reveal_strlit("ELQrewind");
    assert("fopen"@.len() == 5);
    assert("ELQfopen"@.len() == 8);
    assert("fclose"@.len() == 6);
    assert("ELQfclose"@.len() == 9);
    assert("fread"@.len() == 5);
    assert("ELQfread"@.len() == 8);
    assert("fwrite"@.len() == 6);
    assert("ELQfwrite"@.len() == 9);
    assert("fgetc"@.len() == 5);
    assert("fgets"@.len() == 5);
    assert("ELQfgets"@.len() == 8);
    assert("fputc"@.len() == 5);
    assert("putchar"@.len() == 7);
    assert("fputs"@.len() == 5);
    assert("ELQfputs"@.len() == 8);
    assert("fseek"@.len() == 5);
    assert("ELQfseek"@.len() == 8);
    assert("ftell"@.len() == 5);
    assert("ELQftell"@.len() == 8);
    assert("rewind"@.len() == 6);
    assert("ELQrewind"@.len() == 9);
    assert("ELQfread"@[4] != "ELQfopen"@[4]);
    assert("ELQfwrite"@[4] != "ELQfclose"@[4]);
    assert("ELQfputs"@[4] != "ELQfopen"@[4]);
    assert("ELQfputs"@[4] != "ELQfread"@[4]);
    assert("ELQfputs"@[4] != "ELQfgets"@[4]);
    assert("ELQfseek"@[4] != "ELQfopen"@[4]);
    assert("ELQfseek"@[4] != "ELQfread"@[4]);
    assert("ELQfseek"@[4] != "ELQfgets"@[4]);
    assert("ELQfseek"@[4] != "ELQfputs"@[4]);
    assert("ELQftell"@[4] != "ELQfopen"@[4]);
    assert("ELQftell"@[4] != "ELQfread"@[4]);
    assert("ELQftell"@[4] != "ELQfgets"@[4]);
    assert("ELQftell"@[4] != "ELQfputs"@[4]);
    assert("ELQftell"@[4] != "ELQfseek"@[4]);
    assert("ELQrewind"@[3] != "ELQfclose"@[3]);
    assert("ELQrewind"@[3] != "ELQfwrite"@[3]);
}

/// Blocks are taken and released by them too.
pub proof fn engine_names_take_blocks()
    ensures
        heap_named("ELQmalloc"@) == Some(Call::Heap(HeapCall::Block)),
        heap_named("ELQrealloc"@) == Some(Call::Heap(HeapCall::Resize)),
        heap_named("ELQfree"@) == Some(Call::Heap(HeapCall::Release)),
{
    reveal_strlit("malloc");
    reveal_strlit("ELQmalloc");
    reveal_strlit("calloc");
    reveal_strlit("realloc");
    reveal_strlit("ELQrealloc");
    reveal_strlit("free");
    reveal_strlit("ELQfree");
    assert("malloc"@.len() == 6);
    assert("ELQmalloc"@.len() == 9);
    assert("calloc"@.len() == 6);
    assert("realloc"@.len() == 7);
    assert("ELQrealloc"@.len() == 10);
    assert("free"@.len() == 4);
    assert("ELQfree"@.len() == 7);
    assert("ELQfree"@[0] != "realloc"@[0]);
}

} // verus!
