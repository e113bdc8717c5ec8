[package]
name = "rotmg_sniffer"
version = "0.1.0"
edition = "2021"
publish = false

[dependencies]
byteorder = "1"
etherparse = "0.13"
log = "0.4"
pcap = "1"
simple-logging = "2"
