[package]
name = "ifcfg_devname"
version = "0.1.0"
edition = "2021"
publish = false

[dependencies]
mac_address = "*"
regex = "*"
glob = "*"
log = "*"
syslog = "*"
stderrlog = "*"
