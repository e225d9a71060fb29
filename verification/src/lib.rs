//! Verified core logic of a voice bot platform: PCM and µ-law codecs, RTP and
//! AudioSocket framing, voice activity decisions, call analysis and campaign
//! reporting for the load tester, TTS text normalization and configuration
//! validation.

pub mod pcm;
pub mod frame;
pub mod rtp;
pub mod audiosocket;
pub mod chunker;
pub mod vad;
pub mod analysis;
pub mod text;
pub mod report;
pub mod report_page;
pub mod sort;
pub mod config;
pub mod tts;
pub mod elevenlabs;
pub mod wsclient;
pub mod loadaudio;
pub mod wsserver;
pub mod platform;
pub mod ari;
pub mod scheduler;
pub mod dialer;
pub mod storage;
pub mod mockprovider;
pub mod runner;
pub mod outcome_table;
pub mod placeholders;
