//! The constants of the Win32 ABI, held against their declarations.

use windows_sys::Win32::Foundation as foundation;
use windows_sys::Win32::Storage::FileSystem as files;
use windows_sys::Win32::System::Console as system_console;
use windows_sys::Win32::System::Pipes as pipes;
use windows_sys::Win32::System::Threading as threading;
use wmux::{cli, console, pipe};

#[test]
fn console_modes_are_those_of_the_system() {
    assert_eq!(console::ENABLE_PROCESSED_INPUT, system_console::ENABLE_PROCESSED_INPUT);
    assert_eq!(console::ENABLE_LINE_INPUT, system_console::ENABLE_LINE_INPUT);
    assert_eq!(console::ENABLE_ECHO_INPUT, system_console::ENABLE_ECHO_INPUT);
    assert_eq!(
        console::ENABLE_VIRTUAL_TERMINAL_INPUT,
        system_console::ENABLE_VIRTUAL_TERMINAL_INPUT
    );
    assert_eq!(console::ENABLE_PROCESSED_OUTPUT, system_console::ENABLE_PROCESSED_OUTPUT);
    assert_eq!(
        console::ENABLE_VIRTUAL_TERMINAL_PROCESSING,
        system_console::ENABLE_VIRTUAL_TERMINAL_PROCESSING
    );
    assert_eq!(console::DISABLE_NEWLINE_AUTO_RETURN, system_console::DISABLE_NEWLINE_AUTO_RETURN);
}

#[test]
fn pipe_constants_are_those_of_the_system() {
    assert_eq!(pipe::PIPE_ACCESS_DUPLEX, files::PIPE_ACCESS_DUPLEX);
    assert_eq!(pipe::FILE_FLAG_OVERLAPPED, files::FILE_FLAG_OVERLAPPED);
    assert_eq!(pipe::FILE_FLAG_FIRST_PIPE_INSTANCE, files::FILE_FLAG_FIRST_PIPE_INSTANCE);
    assert_eq!(pipe::SECURITY_SQOS_PRESENT, files::SECURITY_SQOS_PRESENT);
    assert_eq!(pipe::SECURITY_IDENTIFICATION, files::SECURITY_IDENTIFICATION);
    assert_eq!(pipe::PIPE_TYPE_BYTE, pipes::PIPE_TYPE_BYTE);
    assert_eq!(pipe::PIPE_READMODE_BYTE, pipes::PIPE_READMODE_BYTE);
    assert_eq!(pipe::PIPE_WAIT, pipes::PIPE_WAIT);
    assert_eq!(pipe::PIPE_REJECT_REMOTE_CLIENTS, pipes::PIPE_REJECT_REMOTE_CLIENTS);
    assert_eq!(pipe::GENERIC_READ, foundation::GENERIC_READ);
    assert_eq!(pipe::GENERIC_WRITE, foundation::GENERIC_WRITE);
}

#[test]
fn error_codes_are_those_of_the_system() {
    assert_eq!(pipe::ERROR_BROKEN_PIPE, foundation::ERROR_BROKEN_PIPE);
    assert_eq!(pipe::ERROR_PIPE_BUSY, foundation::ERROR_PIPE_BUSY);
    assert_eq!(pipe::ERROR_PIPE_NOT_CONNECTED, foundation::ERROR_PIPE_NOT_CONNECTED);
    assert_eq!(pipe::ERROR_MORE_DATA, foundation::ERROR_MORE_DATA);
    assert_eq!(pipe::ERROR_PIPE_CONNECTED, foundation::ERROR_PIPE_CONNECTED);
    assert_eq!(pipe::ERROR_IO_PENDING, foundation::ERROR_IO_PENDING);
}

#[test]
fn process_flags_are_those_of_the_system() {
    assert_eq!(cli::DETACHED_PROCESS, threading::DETACHED_PROCESS);
    assert_eq!(cli::CREATE_NEW_PROCESS_GROUP, threading::CREATE_NEW_PROCESS_GROUP);
    assert_eq!(cli::CREATE_BREAKAWAY_FROM_JOB, threading::CREATE_BREAKAWAY_FROM_JOB);
}
