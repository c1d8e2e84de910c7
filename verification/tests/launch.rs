use naqix_remote_support::launch::{command_line, token_source_for, Desktop, Launched, TokenSource};

#[test]
fn desktop_paths() {
    assert_eq!(Desktop::Default.as_str(), r"Winsta0\Default");
    assert_eq!(Desktop::Winlogon.as_str(), r"Winsta0\Winlogon");
}

#[test]
fn user_token_only_on_the_user_desktop() {
    assert_eq!(token_source_for(true, Desktop::Default), TokenSource::LoggedInUser);
    assert_eq!(token_source_for(true, Desktop::Winlogon), TokenSource::SystemRetargeted);
    assert_eq!(token_source_for(false, Desktop::Default), TokenSource::SystemRetargeted);
    assert_eq!(token_source_for(false, Desktop::Winlogon), TokenSource::SystemRetargeted);
}

#[test]
fn command_line_quotes_the_executable() {
    assert_eq!(
        command_line(r"C:\Program Files\spike-a.exe", "helper winlogon-s1"),
        "\"C:\\Program Files\\spike-a.exe\" helper winlogon-s1"
    );
    assert_eq!(command_line("", ""), "\"\" ");
}

#[test]
fn launched_records_pid_and_token() {
    let l = Launched { pid: 42, token_source: TokenSource::SystemRetargeted };
    assert_eq!(l.pid, 42);
    assert_eq!(l.token_source, TokenSource::SystemRetargeted);
}
