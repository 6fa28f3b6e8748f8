[package]
name = "sysmon_core"
version = "0.1.0"
edition = "2021"
publish = false

[dependencies]
data-url = "*"
anyhow = "*"
widestring = "*"
ntapi = "*"
winapi = { version = "*", features = ["handleapi", "tlhelp32", "processthreadsapi", "psapi", "winbase", "sysinfoapi", "fileapi", "winreg", "setupapi", "iphlpapi", "winnt", "minwindef", "ntdef", "winerror", "tcpmib", "udpmib", "iprtrmib", "ws2def", "ntstatus", "impl-default"] }
