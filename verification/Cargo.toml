[package]
name = "kafka_bulk_topic_create"
version = "0.1.0"
edition = "2021"
publish = false

[dependencies]
clap = "2"
futures = "0.3"
java-properties = "1"
rdkafka = "*"
