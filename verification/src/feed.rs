//! The feed client's connection state machine.
//!
//! The client holds at most one logical connection: it connects, sends one
//! subscription request, and then streams messages.  Any failure sends it
//! back through a reconnect with exponential backoff — `min(2^retries, 30)`
//! seconds — and the retry count resets once a subscription succeeds.  The
//! machine is pure: the caller performs each returned action against the
//! transport and feeds the outcome back as the next event.

use vstd::prelude::*;
use vstd::string::StringExecFns;

verus! {

/// Two to the power `k`.
pub open spec fn pow2(k: int) -> int
    decreases k,
{
    if k <= 0 {
        1
    } else {
        2 * pow2(k - 1)
    }
}

/// The reconnect delay owed after `rc` consecutive failures, in seconds.
pub open spec fn spec_backoff(rc: int) -> int {
    if pow2(rc) <= 30 {
        pow2(rc)
    } else {
        30
    }
}

proof fn lemma_pow2_ge_32(k: int)
    requires
        k >= 5,
    ensures
        pow2(k) >= 32,
    decreases k,
{
    if k == 5 {
        reveal_with_fuel(pow2, 7);
    } else {
        lemma_pow2_ge_32(k - 1);
    }
}

/// The backoff delay before connection attempt number `retry_count + 1`.
pub fn backoff_delay_secs(retry_count: u64) -> (d: u64)
    ensures
        d as int == spec_backoff(retry_count as int),
        1 <= d <= 30,
{
    proof {
        reveal_with_fuel(pow2, 7);
        if retry_count >= 5 {
            lemma_pow2_ge_32(retry_count as int);
        }
    }
    if retry_count == 0 {
        1
    } else if retry_count == 1 {
        2
    } else if retry_count == 2 {
        4
    } else if retry_count == 3 {
        8
    } else if retry_count == 4 {
        16
    } else {
        30
    }
}

/// Where the client stands in its connection lifecycle.
pub enum FeedPhase {
    Disconnected,
    Connecting,
    Subscribing,
    Streaming,
}

/// What the transport reported back to the client.
pub enum FeedEvent {
    Start,
    ConnectOk,
    ConnectFailed,
    SubscribeOk,
    SubscribeFailed,
    StreamEnded,
    QueueClosed,
}

/// What the caller must do next against the transport.
pub enum FeedAction {
    /// Wait the given seconds (zero on a first attempt), then connect.
    RetryAfter { delay_secs: u64 },
    /// Send the subscription request.
    SendSubscribe,
    /// Wait for the next inbound message.
    Receive,
    /// Stop for good: the consumer is gone.
    Exit,
}

/// The client's whole state: its phase and its consecutive failure count.
pub struct FeedClient {
    pub phase: FeedPhase,
    pub retry_count: u64,
}

impl FeedClient {
    /// A fresh client, not yet connected.
    pub fn new() -> (r: FeedClient)
        ensures
            r.phase is Disconnected,
            r.retry_count == 0,
    {
        FeedClient { phase: FeedPhase::Disconnected, retry_count: 0 }
    }

    /// Advances the machine by one transport event.
    ///
    /// Connect and subscribe failures raise the retry count and schedule a
    /// reconnect after `min(2^retry_count, 30)` seconds; a successful
    /// subscription resets the count to zero and enters streaming; a
    /// stream end reconnects at once when no failures are pending; a
    /// closed queue ends the client for good.
    pub fn on_event(&mut self, ev: FeedEvent) -> (a: FeedAction)
        ensures
            ev is Start ==> final(self).phase is Connecting && final(self).retry_count == old(
                self,
            ).retry_count && a == (FeedAction::RetryAfter {
                delay_secs: if old(self).retry_count == 0 {
                    0u64
                } else {
                    spec_backoff(old(self).retry_count as int) as u64
                },
            }),
            ev is ConnectOk ==> final(self).phase is Subscribing && final(self).retry_count == old(
                self,
            ).retry_count && a is SendSubscribe,
            (ev is ConnectFailed || ev is SubscribeFailed) ==> {
                &&& final(self).phase is Connecting
                &&& final(self).retry_count as int == if old(self).retry_count < u64::MAX {
                    old(self).retry_count + 1
                } else {
                    old(self).retry_count as int
                }
                &&& a == (FeedAction::RetryAfter {
                    delay_secs: spec_backoff(final(self).retry_count as int) as u64,
                })
            },
            ev is SubscribeOk ==> final(self).phase is Streaming && final(self).retry_count == 0
                && a is Receive,
            ev is StreamEnded ==> final(self).phase is Connecting && final(self).retry_count == old(
                self,
            ).retry_count && a == (FeedAction::RetryAfter {
                delay_secs: if old(self).retry_count == 0 {
                    0u64
                } else {
                    spec_backoff(old(self).retry_count as int) as u64
                },
            }),
            ev is QueueClosed ==> final(self).phase is Disconnected && a is Exit,
    {
        match ev {
            FeedEvent::Start => {
                self.phase = FeedPhase::Connecting;
                let d = if self.retry_count == 0 {
                    0
                } else {
                    backoff_delay_secs(self.retry_count)
                };
                FeedAction::RetryAfter { delay_secs: d }
            },
            FeedEvent::ConnectOk => {
                self.phase = FeedPhase::Subscribing;
                FeedAction::SendSubscribe
            },
            FeedEvent::ConnectFailed | FeedEvent::SubscribeFailed => {
                if self.retry_count < u64::MAX {
                    self.retry_count = self.retry_count + 1;
                }
                self.phase = FeedPhase::Connecting;
                let d = backoff_delay_secs(self.retry_count);
                FeedAction::RetryAfter { delay_secs: d }
            },
            FeedEvent::SubscribeOk => {
                self.phase = FeedPhase::Streaming;
                self.retry_count = 0;
                FeedAction::Receive
            },
            FeedEvent::StreamEnded => {
                self.phase = FeedPhase::Connecting;
                let d = if self.retry_count == 0 {
                    0
                } else {
                    backoff_delay_secs(self.retry_count)
                };
                FeedAction::RetryAfter { delay_secs: d }
            },
            FeedEvent::QueueClosed => {
                self.phase = FeedPhase::Disconnected;
                FeedAction::Exit
            },
        }
    }
}

/// The one subscription request sent after each successful connect.
pub fn subscription_request() -> (r: String)
    ensures
        r@ == "{\"method\":\"subscribe\",\"subscription\":{\"type\":\"l2Book\",\"coin\":\"@107\",\"nSigFigs\":5}}"@,
{
    String::from_str(
        "{\"method\":\"subscribe\",\"subscription\":{\"type\":\"l2Book\",\"coin\":\"@107\",\"nSigFigs\":5}}",
    )
}

} // verus!
