//! Prize-pool engine: basis-point probability allocation over weighted items,
//! seed-driven weighted selection, per-item profitability figures, and the
//! pool ledger's state transitions.

pub mod allocation;
pub mod analysis;
pub mod arith;
pub mod ledger;
pub mod normalize;
pub mod probability;
pub mod seed;
pub mod selection;
pub mod weights;

pub use ledger::{
    buy_ticket, claim_reward, get_probability_analysis, get_user_tickets,
    initialize_company_pool, record_spin_result, withdraw_funds_from_vault, BuyTicket,
    ClaimReward, CompanyPool, ErrorCode, FundsWithdrawnEvent, GetProbabilityAnalysis,
    GetUserTickets, InitializeCompanyPool, PoolInitializedEvent, PoolItem, PoolItemInput,
    ProbabilityAnalysisEvent, RecordSpinResult, RewardClaimedEvent, SpinResultEvent,
    TicketPurchasedEvent, UserTicket, WithdrawFundsFromVault, WonItem,
};
