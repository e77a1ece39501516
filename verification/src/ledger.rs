//! The pool ledger: the records of a company pool and of a participant's
//! ticket, and what each instruction decides on them. An instruction here is
//! a function from the records and the plain values that it is called with
//! to the new records, the payment to make and the event to emit, or to the
//! error that refuses it.

use crate::allocation::{
    allocate_probabilities, allocated, lemma_standard_lists_are_served, standard_policy,
    AllocationPolicy, ProbabilityError,
};
use crate::analysis::{
    analyze_profitability, expected_cost, expected_spins, profit, profit_ratio, Fraction,
};
use crate::arith::{lemma_prefix_sum_monotone, prefix_sum, total};
use crate::normalize::{lemma_entry_within_total, point_ints, TOTAL_BASIS_POINTS};
use crate::seed::{derive_spin_seed, spin_seed};
use crate::selection::{select_winning_item_index, selection};
use vstd::prelude::*;
use vstd::utf8::encode_utf8;

verus! {

/// The address of an account: 32 bytes.
pub type Key = [u8; 32];

/// Most bytes of a company or item name.
pub const MAX_NAME_LENGTH: usize = 50;

/// Most bytes of an image reference.
pub const MAX_IMAGE_LENGTH: usize = 200;

/// Most bytes of an item description.
pub const MAX_DESCRIPTION_LENGTH: usize = 200;

/// Most items of a pool.
pub const MAX_ITEMS: usize = 10;

/// Why an instruction was refused.
#[derive(Clone, Copy, Debug, PartialEq, Eq, Structural)]
pub enum ErrorCode {
    /// Ticket price must be greater than 0.
    InvalidTicketPrice,
    /// At least one item must be provided.
    NoItemsProvided,
    /// Company name is too long (max 50 characters).
    CompanyNameTooLong,
    /// Company image URL is too long (max 200 characters).
    CompanyImageTooLong,
    /// Too many items (max 10 allowed).
    TooManyItems,
    /// Item price must be greater than 0.
    InvalidItemPrice,
    /// Item price cannot be lower than ticket price.
    ItemPriceTooLow,
    /// Item name is too long (max 50 characters).
    ItemNameTooLong,
    /// Item image URL is too long (max 200 characters).
    ItemImageTooLong,
    /// Item description is too long (max 200 characters).
    ItemDescriptionTooLong,
    /// Pool is not active.
    PoolInactive,
    /// No available items to spin.
    NoAvailableItems,
    /// Unauthorized withdrawal attempt.
    UnauthorizedWithdrawal,
    /// No funds available for withdrawal.
    NoFundsAvailable,
    /// Invalid withdrawal amount.
    InvalidAmount,
    /// Insufficient funds for withdrawal.
    InsufficientFunds,
    /// Insufficient vault funds.
    InsufficientVaultFunds,
    /// Math overflow occurred.
    MathOverflow,
    /// Invalid probability calculation.
    InvalidProbabilityCalculation,
    /// Probability sum mismatch.
    ProbabilitySumMismatch,
    /// Failed to select winning item.
    ProbabilitySelectionFailed,
    /// You don't own this ticket.
    NotTicketOwner,
    /// Ticket belongs to different pool.
    InvalidTicketPool,
    /// This ticket has already been used.
    TicketAlreadyUsed,
    /// Ticket must be used (spun) before claiming reward.
    TicketNotUsed,
    /// Reward has already been claimed.
    RewardAlreadyClaimed,
    /// No reward to claim for this ticket.
    NoRewardToClaim,
}

/// An item as it is offered when a pool is set up.
#[derive(Debug)]
pub struct PoolItemInput {
    pub image: String,
    pub price: u64,
    pub name: String,
    pub description: String,
}

/// An item of a pool, with the probability that it was allocated.
#[derive(Debug)]
pub struct PoolItem {
    pub image: String,
    pub price: u64,
    pub name: String,
    pub description: String,
    /// Basis points; kept on record also while the item is not available.
    pub probability: u32,
    pub available: bool,
}

/// The item that a ticket has won.
#[derive(Debug)]
pub struct WonItem {
    pub name: String,
    pub price: u64,
    pub image: String,
    pub description: String,
    /// The index of the item in the pool.
    pub item_index: u32,
}

/// The record of a pool.
#[derive(Debug)]
pub struct CompanyPool {
    pub authority: Key,
    pub company_name: String,
    pub company_image: String,
    pub ticket_price: u64,
    pub items: Vec<PoolItem>,
    pub total_value: u64,
    pub total_tickets_sold: u64,
    pub total_funds: u64,
    pub active: bool,
    pub created_at: i64,
}

/// The record of a ticket.
#[derive(Debug)]
pub struct UserTicket {
    pub owner: Key,
    pub company_pool: Key,
    pub purchased_at: i64,
    pub used: bool,
    pub ticket_id: u64,
    /// The item that the ticket has won, once it has been spun.
    pub won_item: Option<WonItem>,
    /// Whether the reward has been paid out.
    pub reward_claimed: bool,
}

impl Clone for PoolItem {
    fn clone(&self) -> (copy: Self)
        ensures
            copy == *self,
    {
        PoolItem {
            image: self.image.clone(),
            price: self.price,
            name: self.name.clone(),
            description: self.description.clone(),
            probability: self.probability,
            available: self.available,
        }
    }
}

impl Clone for WonItem {
    fn clone(&self) -> (copy: Self)
        ensures
            copy == *self,
    {
        WonItem {
            name: self.name.clone(),
            price: self.price,
            image: self.image.clone(),
            description: self.description.clone(),
            item_index: self.item_index,
        }
    }
}

/// The number of bytes that a text takes.
pub open spec fn byte_length(text: Seq<char>) -> nat {
    encode_utf8(text).len()
}

/// Whether two keys are the same.
pub fn same_key(first: &Key, second: &Key) -> (same: bool)
    ensures
        same == (first@ == second@),
{
    let mut i: usize = 0;
    while i < 32
        invariant
            i <= 32,
            forall|j: int| 0 <= j < i ==> first@[j] == second@[j],
        decreases 32 - i,
    {
        if first[i] != second[i] {
            return false;
        }
        i = i + 1;
    }
    assert(first@ =~= second@);
    true
}

/// What the allocator's error is called on the ledger.
pub open spec fn error_code_of(error: ProbabilityError) -> ErrorCode {
    match error {
        ProbabilityError::NoItemsProvided => ErrorCode::NoItemsProvided,
        ProbabilityError::InvalidPrice => ErrorCode::InvalidTicketPrice,
        ProbabilityError::Overflow => ErrorCode::MathOverflow,
        ProbabilityError::InvalidProbabilityCalculation => ErrorCode::InvalidProbabilityCalculation,
        ProbabilityError::NoAvailableItems => ErrorCode::NoAvailableItems,
    }
}

impl From<ProbabilityError> for ErrorCode {
    fn from(error: ProbabilityError) -> (code: ErrorCode) {
        match error {
            ProbabilityError::NoItemsProvided => ErrorCode::NoItemsProvided,
            ProbabilityError::InvalidPrice => ErrorCode::InvalidTicketPrice,
            ProbabilityError::Overflow => ErrorCode::MathOverflow,
            ProbabilityError::InvalidProbabilityCalculation => {
                ErrorCode::InvalidProbabilityCalculation
            },
            ProbabilityError::NoAvailableItems => ErrorCode::NoAvailableItems,
        }
    }
}

impl vstd::std_specs::convert::FromSpecImpl<ProbabilityError> for ErrorCode {
    open spec fn obeys_from_spec() -> bool {
        true
    }

    open spec fn from_spec(error: ProbabilityError) -> ErrorCode {
        error_code_of(error)
    }
}

/// What setting up a pool is called with, besides its arguments: the key of
/// the authority that sets it up, the balance of the pool's vault, the
/// balance that keeps the vault exempt from rent, and the time.
#[derive(Debug)]
pub struct InitializeCompanyPool {
    pub authority: Key,
    pub vault_lamports: u64,
    pub rent_exempt_minimum: u64,
    pub unix_timestamp: i64,
}

/// Emitted when a pool has been set up.
#[derive(Debug)]
pub struct PoolInitializedEvent {
    pub company_name: String,
    pub ticket_price: u64,
    pub item_count: u32,
    pub authority: Key,
    pub total_probability_check: u32,
}

/// What setting up a pool comes to: the record of the pool, the deposit that
/// the authority owes the vault, and the event.
#[derive(Debug)]
pub struct PoolInitialization {
    pub company_pool: CompanyPool,
    /// Lamports to move from the authority to the vault, where the vault is
    /// below the balance that keeps it exempt from rent.
    pub vault_deposit: Option<u64>,
    pub event: PoolInitializedEvent,
}

/// The prices of the items that a pool is set up with.
pub open spec fn input_prices(items: Seq<PoolItemInput>) -> Seq<u64> {
    Seq::new(items.len(), |i: int| items[i].price)
}

/// The prices of the items that a pool is set up with, as integers.
pub open spec fn input_price_ints(items: Seq<PoolItemInput>) -> Seq<int> {
    Seq::new(items.len(), |i: int| items[i].price as int)
}

/// The prices of the items of a pool.
pub open spec fn item_prices(items: Seq<PoolItem>) -> Seq<int> {
    Seq::new(items.len(), |i: int| items[i].price as int)
}

/// The probabilities on record for the items of a pool.
pub open spec fn recorded_probabilities(items: Seq<PoolItem>) -> Seq<u32> {
    Seq::new(items.len(), |i: int| items[i].probability)
}

/// Why an offered item is refused, if it is: a price of zero, or a name, an
/// image reference or a description that is too long, in this order.
pub open spec fn item_input_error(item: PoolItemInput) -> Option<ErrorCode> {
    if item.price == 0 {
        Some(ErrorCode::InvalidItemPrice)
    } else if byte_length(item.name@) > MAX_NAME_LENGTH {
        Some(ErrorCode::ItemNameTooLong)
    } else if byte_length(item.image@) > MAX_IMAGE_LENGTH {
        Some(ErrorCode::ItemImageTooLong)
    } else if byte_length(item.description@) > MAX_DESCRIPTION_LENGTH {
        Some(ErrorCode::ItemDescriptionTooLong)
    } else {
        None
    }
}

/// The first refusal among the first `count` offered items.
pub open spec fn first_item_error(items: Seq<PoolItemInput>, count: int) -> Option<ErrorCode>
    decreases count,
{
    if count <= 0 {
        None
    } else {
        match first_item_error(items, count - 1) {
            Some(error) => Some(error),
            None => item_input_error(items[count - 1]),
        }
    }
}

/// Why setting up a pool is refused, if it is. The checks come in this
/// order: the ticket price, the presence of items, the lengths of the
/// company's name and image reference, the number of items, each item in
/// turn, and the sum of the item prices. What passes these checks is always
/// allocated its probabilities.
pub open spec fn initialization_error(
    ticket_price: u64,
    company_name: Seq<char>,
    company_image: Seq<char>,
    items: Seq<PoolItemInput>,
) -> Option<ErrorCode> {
    if ticket_price == 0 {
        Some(ErrorCode::InvalidTicketPrice)
    } else if items.len() == 0 {
        Some(ErrorCode::NoItemsProvided)
    } else if byte_length(company_name) > MAX_NAME_LENGTH {
        Some(ErrorCode::CompanyNameTooLong)
    } else if byte_length(company_image) > MAX_IMAGE_LENGTH {
        Some(ErrorCode::CompanyImageTooLong)
    } else if items.len() > MAX_ITEMS {
        Some(ErrorCode::TooManyItems)
    } else if first_item_error(items, items.len() as int) is Some {
        first_item_error(items, items.len() as int)
    } else if total(input_price_ints(items)) > u64::MAX {
        Some(ErrorCode::MathOverflow)
    } else {
        None
    }
}

/// The item of a pool that an offered item becomes.
pub open spec fn pool_item_of(item: PoolItemInput, probability: int) -> PoolItem {
    PoolItem {
        image: item.image,
        price: item.price,
        name: item.name,
        description: item.description,
        probability: probability as u32,
        available: true,
    }
}

impl CompanyPool {
    /// The probabilities on record add up to exactly 10 000 basis points, and
    /// none of them is zero.
    pub open spec fn probabilities_valid(self) -> bool {
        &&& total(point_ints(recorded_probabilities(self.items@))) == TOTAL_BASIS_POINTS
        &&& forall|i: int| 0 <= i < self.items.len() ==> (#[trigger] self.items[i]).probability >= 1
    }
}

/// The number of bytes that a text takes.
pub fn text_length(text: &String) -> (length: usize)
    ensures
        length == byte_length(text@),
{
    text.as_str().as_bytes().len()
}

/// Why one offered item is refused, if it is.
pub fn check_item_input(item: &PoolItemInput) -> (refusal: Option<ErrorCode>)
    ensures
        refusal == item_input_error(*item),
{
    if item.price == 0 {
        Some(ErrorCode::InvalidItemPrice)
    } else if text_length(&item.name) > MAX_NAME_LENGTH {
        Some(ErrorCode::ItemNameTooLong)
    } else if text_length(&item.image) > MAX_IMAGE_LENGTH {
        Some(ErrorCode::ItemImageTooLong)
    } else if text_length(&item.description) > MAX_DESCRIPTION_LENGTH {
        Some(ErrorCode::ItemDescriptionTooLong)
    } else {
        None
    }
}

/// Sets up a pool: checks what it is given, allocates the probabilities of
/// the items, and draws up the record of the pool with every item
/// available, no ticket sold and no funds. Nothing is drawn up where a check
/// fails.
#[verifier::loop_isolation(false)]
pub fn initialize_company_pool(
    ctx: &InitializeCompanyPool,
    ticket_price: u64,
    company_name: String,
    company_image: String,
    items: Vec<PoolItemInput>,
) -> (outcome: Result<PoolInitialization, ErrorCode>)
    ensures
        match outcome {
            Ok(done) => {
                let pool = done.company_pool;
                let points = allocated(input_prices(items@), standard_policy());
                &&& initialization_error(ticket_price, company_name@, company_image@, items@)
                    is None
                &&& pool.authority == ctx.authority
                &&& pool.company_name == company_name
                &&& pool.company_image == company_image
                &&& pool.ticket_price == ticket_price
                &&& pool.items.len() == items.len()
                &&& forall|i: int|
                    0 <= i < items.len() ==> #[trigger] pool.items[i] == pool_item_of(
                        items[i],
                        points[i],
                    )
                &&& pool.total_value == total(item_prices(pool.items@))
                &&& pool.total_tickets_sold == 0
                &&& pool.total_funds == 0
                &&& pool.active
                &&& pool.created_at == ctx.unix_timestamp
                &&& pool.probabilities_valid()
                &&& done.vault_deposit == if ctx.vault_lamports < ctx.rent_exempt_minimum {
                    Some(ctx.rent_exempt_minimum)
                } else {
                    None
                }
                &&& done.event.company_name == company_name
                &&& done.event.ticket_price == ticket_price
                &&& done.event.item_count == items.len()
                &&& done.event.authority == ctx.authority
                &&& done.event.total_probability_check == TOTAL_BASIS_POINTS
            },
            Err(error) => initialization_error(ticket_price, company_name@, company_image@, items@)
                == Some(error),
        },
{
    if ticket_price == 0 {
        return Err(ErrorCode::InvalidTicketPrice);
    }
    if items.len() == 0 {
        return Err(ErrorCode::NoItemsProvided);
    }
    if text_length(&company_name) > MAX_NAME_LENGTH {
        return Err(ErrorCode::CompanyNameTooLong);
    }
    if text_length(&company_image) > MAX_IMAGE_LENGTH {
        return Err(ErrorCode::CompanyImageTooLong);
    }
    if items.len() > MAX_ITEMS {
        return Err(ErrorCode::TooManyItems);
    }
    let count = items.len();
    let mut prices: Vec<u64> = Vec::new();
    let mut k: usize = 0;
    while k < count
        invariant
            k <= count,
            count == items.len(),
            prices.len() == k,
            first_item_error(items@, k as int) is None,
            forall|j: int| 0 <= j < k ==> #[trigger] prices[j] == items[j].price,
        decreases count - k,
    {
        match check_item_input(&items[k]) {
            Some(error) => {
                proof {
                    assert(first_item_error(items@, k + 1) == Some(error));
                    lemma_first_item_error_stays(items@, k + 1, count as int);
                }
                return Err(error);
            },
            None => {},
        }
        prices.push(items[k].price);
        k = k + 1;
    }
    assert(prices@ =~= input_prices(items@));
    proof {
        lemma_accepted_items_have_prices(items@, count as int);
        lemma_standard_lists_are_served(prices@, ticket_price);
    }
    // the allocator never refuses here: every check that it makes has passed
    let policy = AllocationPolicy::standard();
    let probabilities = match allocate_probabilities(&prices, ticket_price, &policy) {
        Ok(probabilities) => probabilities,
        Err(_) => {
            return Err(ErrorCode::InvalidProbabilityCalculation);
        },
    };
    let ghost points = allocated(input_prices(items@), standard_policy());
    let ghost price_ints = input_price_ints(items@);
    let mut pool_items: Vec<PoolItem> = Vec::new();
    let mut total_value: u64 = 0;
    let mut i: usize = 0;
    while i < count
        invariant
            i <= count,
            count == items.len(),
            count <= MAX_ITEMS,
            pool_items.len() == i,
            probabilities.len() == count,
            point_ints(probabilities@) == points,
            price_ints == input_price_ints(items@),
            total_value == prefix_sum(price_ints, i as int),
            forall|j: int|
                0 <= j < count ==> 1 <= #[trigger] probabilities[j] <= TOTAL_BASIS_POINTS,
            forall|j: int|
                0 <= j < i ==> #[trigger] pool_items[j] == pool_item_of(items[j], points[j]),
        decreases count - i,
    {
        let item = &items[i];
        assert(points[i as int] == probabilities[i as int]);
        total_value = match total_value.checked_add(item.price) {
            Some(sum) => sum,
            None => {
                proof {
                    lemma_prefix_sum_monotone(price_ints, i + 1, count as int);
                }
                return Err(ErrorCode::MathOverflow);
            },
        };
        pool_items.push(
            PoolItem {
                image: item.image.clone(),
                price: item.price,
                name: item.name.clone(),
                description: item.description.clone(),
                probability: probabilities[i],
                available: true,
            },
        );
        i = i + 1;
    }
    assert(item_prices(pool_items@) =~= price_ints);
    assert(recorded_probabilities(pool_items@) =~= probabilities@);
    let vault_deposit = if ctx.vault_lamports < ctx.rent_exempt_minimum {
        Some(ctx.rent_exempt_minimum)
    } else {
        None
    };
    let event = PoolInitializedEvent {
        company_name: company_name.clone(),
        ticket_price,
        item_count: count as u32,
        authority: ctx.authority,
        total_probability_check: TOTAL_BASIS_POINTS,
    };
    let company_pool = CompanyPool {
        authority: ctx.authority,
        company_name,
        company_image,
        ticket_price,
        items: pool_items,
        total_value,
        total_tickets_sold: 0,
        total_funds: 0,
        active: true,
        created_at: ctx.unix_timestamp,
    };
    Ok(PoolInitialization { company_pool, vault_deposit, event })
}

/// Where none of the first items is refused, each of them has a price above
/// zero.
pub proof fn lemma_accepted_items_have_prices(items: Seq<PoolItemInput>, count: int)
    requires
        0 <= count <= items.len(),
        first_item_error(items, count) is None,
    ensures
        forall|i: int| 0 <= i < count ==> (#[trigger] items[i]).price > 0,
    decreases count,
{
    if count > 0 {
        lemma_accepted_items_have_prices(items, count - 1);
    }
}

/// A refusal among the first items is the refusal among all of them.
pub proof fn lemma_first_item_error_stays(items: Seq<PoolItemInput>, shorter: int, longer: int)
    requires
        shorter <= longer,
        first_item_error(items, shorter) is Some,
    ensures
        first_item_error(items, longer) == first_item_error(items, shorter),
    decreases longer - shorter,
{
    if shorter < longer {
        lemma_first_item_error_stays(items, shorter, longer - 1);
    }
}

/// What buying a ticket is called with: the key of the buyer, the key of
/// the pool's account, and the time.
#[derive(Debug)]
pub struct BuyTicket {
    pub buyer: Key,
    pub company_pool: Key,
    pub unix_timestamp: i64,
}

/// Emitted when a ticket has been bought.
#[derive(Debug)]
pub struct TicketPurchasedEvent {
    pub buyer: Key,
    pub ticket_price: u64,
    pub total_tickets_sold: u64,
    pub ticket_id: u64,
    pub timestamp: i64,
}

/// What buying a ticket comes to: the record of the ticket, the payment that
/// the buyer owes the vault, and the event.
#[derive(Debug)]
pub struct TicketPurchase {
    pub user_ticket: UserTicket,
    /// Lamports to move from the buyer to the vault.
    pub payment: u64,
    pub event: TicketPurchasedEvent,
}

/// Why buying a ticket is refused, if it is: the pool is not active, it has
/// no items, or its count of tickets or its funds would overflow.
pub open spec fn purchase_error(pool: CompanyPool) -> Option<ErrorCode> {
    if !pool.active {
        Some(ErrorCode::PoolInactive)
    } else if pool.items.len() == 0 {
        Some(ErrorCode::NoItemsProvided)
    } else if pool.total_tickets_sold + 1 > u64::MAX {
        Some(ErrorCode::MathOverflow)
    } else if pool.total_funds + pool.ticket_price > u64::MAX {
        Some(ErrorCode::MathOverflow)
    } else {
        None
    }
}

/// Buys a ticket: the ticket takes the next number of the pool, the pool
/// counts one ticket more and the price of a ticket more in funds. A refusal
/// leaves the pool as it was.
pub fn buy_ticket(company_pool: &mut CompanyPool, ctx: &BuyTicket) -> (outcome: Result<
    TicketPurchase,
    ErrorCode,
>)
    ensures
        match outcome {
            Ok(bought) => {
                &&& purchase_error(*old(company_pool)) is None
                &&& *final(company_pool) == (CompanyPool {
                    total_tickets_sold: (old(company_pool).total_tickets_sold + 1) as u64,
                    total_funds: (old(company_pool).total_funds + old(company_pool).ticket_price) as u64,
                    ..*old(company_pool)
                })
                &&& bought.user_ticket == (UserTicket {
                    owner: ctx.buyer,
                    company_pool: ctx.company_pool,
                    purchased_at: ctx.unix_timestamp,
                    used: false,
                    ticket_id: old(company_pool).total_tickets_sold,
                    won_item: None,
                    reward_claimed: false,
                })
                &&& bought.payment == old(company_pool).ticket_price
                &&& bought.event == (TicketPurchasedEvent {
                    buyer: ctx.buyer,
                    ticket_price: old(company_pool).ticket_price,
                    total_tickets_sold: (old(company_pool).total_tickets_sold + 1) as u64,
                    ticket_id: old(company_pool).total_tickets_sold,
                    timestamp: ctx.unix_timestamp,
                })
            },
            Err(error) => {
                &&& purchase_error(*old(company_pool)) == Some(error)
                &&& *final(company_pool) == *old(company_pool)
            },
        },
{
    if !company_pool.active {
        return Err(ErrorCode::PoolInactive);
    }
    if company_pool.items.len() == 0 {
        return Err(ErrorCode::NoItemsProvided);
    }
    let ticket_price = company_pool.ticket_price;
    let ticket_id = company_pool.total_tickets_sold;
    let sold = match ticket_id.checked_add(1) {
        Some(sold) => sold,
        None => {
            return Err(ErrorCode::MathOverflow);
        },
    };
    let funds = match company_pool.total_funds.checked_add(ticket_price) {
        Some(funds) => funds,
        None => {
            return Err(ErrorCode::MathOverflow);
        },
    };
    let user_ticket = UserTicket {
        owner: ctx.buyer,
        company_pool: ctx.company_pool,
        purchased_at: ctx.unix_timestamp,
        used: false,
        ticket_id,
        won_item: None,
        reward_claimed: false,
    };
    company_pool.total_tickets_sold = sold;
    company_pool.total_funds = funds;
    let event = TicketPurchasedEvent {
        buyer: ctx.buyer,
        ticket_price,
        total_tickets_sold: sold,
        ticket_id,
        timestamp: ctx.unix_timestamp,
    };
    Ok(TicketPurchase { user_ticket, payment: ticket_price, event })
}

/// What a vault can pay out: its balance less the balance that keeps it
/// exempt from rent, and nothing where it is below that.
pub open spec fn payable_balance(vault_lamports: u64, rent_exempt_minimum: u64) -> u64 {
    if vault_lamports >= rent_exempt_minimum {
        (vault_lamports - rent_exempt_minimum) as u64
    } else {
        0
    }
}

/// What withdrawing funds is called with, besides the amount: the key of the
/// signing authority, the balance of the vault, the balance that keeps the
/// vault exempt from rent, and the time.
#[derive(Debug)]
pub struct WithdrawFundsFromVault {
    pub authority: Key,
    pub vault_lamports: u64,
    pub rent_exempt_minimum: u64,
    pub unix_timestamp: i64,
}

/// Emitted when funds have been withdrawn.
#[derive(Debug)]
pub struct FundsWithdrawnEvent {
    pub authority: Key,
    pub amount_withdrawn: u64,
    pub remaining_funds: u64,
    pub timestamp: i64,
}

/// What a withdrawal comes to: the payment that the vault owes the
/// authority, and the event.
#[derive(Debug)]
pub struct Withdrawal {
    /// Lamports to move from the vault to the authority.
    pub payment: u64,
    pub event: FundsWithdrawnEvent,
}

/// Why a withdrawal is refused, if it is. The checks come in this order: the
/// pool is active, it has funds, the signer is the pool's authority, the
/// amount is above zero, within the funds, and within what the vault can pay
/// out.
pub open spec fn withdrawal_error(
    pool: CompanyPool,
    ctx: WithdrawFundsFromVault,
    amount_to_withdraw: u64,
) -> Option<ErrorCode> {
    if !pool.active {
        Some(ErrorCode::PoolInactive)
    } else if pool.total_funds == 0 {
        Some(ErrorCode::NoFundsAvailable)
    } else if pool.authority@ != ctx.authority@ {
        Some(ErrorCode::UnauthorizedWithdrawal)
    } else if amount_to_withdraw == 0 {
        Some(ErrorCode::InvalidAmount)
    } else if amount_to_withdraw > pool.total_funds {
        Some(ErrorCode::InsufficientFunds)
    } else if amount_to_withdraw > payable_balance(ctx.vault_lamports, ctx.rent_exempt_minimum) {
        Some(ErrorCode::InsufficientVaultFunds)
    } else {
        None
    }
}

/// Withdraws funds of the pool to its authority: the funds of the pool go
/// down by the amount. A refusal leaves the pool as it was.
pub fn withdraw_funds_from_vault(
    company_pool: &mut CompanyPool,
    ctx: &WithdrawFundsFromVault,
    amount_to_withdraw: u64,
) -> (outcome: Result<Withdrawal, ErrorCode>)
    ensures
        match outcome {
            Ok(withdrawn) => {
                &&& withdrawal_error(*old(company_pool), *ctx, amount_to_withdraw) is None
                &&& *final(company_pool) == (CompanyPool {
                    total_funds: (old(company_pool).total_funds - amount_to_withdraw) as u64,
                    ..*old(company_pool)
                })
                &&& withdrawn.payment == amount_to_withdraw
                &&& withdrawn.event == (FundsWithdrawnEvent {
                    authority: ctx.authority,
                    amount_withdrawn: amount_to_withdraw,
                    remaining_funds: (old(company_pool).total_funds - amount_to_withdraw) as u64,
                    timestamp: ctx.unix_timestamp,
                })
            },
            Err(error) => {
                &&& withdrawal_error(*old(company_pool), *ctx, amount_to_withdraw) == Some(error)
                &&& *final(company_pool) == *old(company_pool)
            },
        },
{
    if !company_pool.active {
        return Err(ErrorCode::PoolInactive);
    }
    if company_pool.total_funds == 0 {
        return Err(ErrorCode::NoFundsAvailable);
    }
    if !same_key(&company_pool.authority, &ctx.authority) {
        return Err(ErrorCode::UnauthorizedWithdrawal);
    }
    if amount_to_withdraw == 0 {
        return Err(ErrorCode::InvalidAmount);
    }
    if amount_to_withdraw > company_pool.total_funds {
        return Err(ErrorCode::InsufficientFunds);
    }
    let withdrawable = ctx.vault_lamports.saturating_sub(ctx.rent_exempt_minimum);
    if amount_to_withdraw > withdrawable {
        return Err(ErrorCode::InsufficientVaultFunds);
    }
    let remaining = company_pool.total_funds - amount_to_withdraw;
    company_pool.total_funds = remaining;
    let event = FundsWithdrawnEvent {
        authority: ctx.authority,
        amount_withdrawn: amount_to_withdraw,
        remaining_funds: remaining,
        timestamp: ctx.unix_timestamp,
    };
    Ok(Withdrawal { payment: amount_to_withdraw, event })
}

/// What claiming a reward is called with: the key of the signing spinner,
/// the key of the pool's account, the balance of the vault, the balance that
/// keeps the vault exempt from rent, and the time.
#[derive(Debug)]
pub struct ClaimReward {
    pub spinner: Key,
    pub company_pool: Key,
    pub vault_lamports: u64,
    pub rent_exempt_minimum: u64,
    pub unix_timestamp: i64,
}

/// Emitted when a reward has been claimed.
#[derive(Debug)]
pub struct RewardClaimedEvent {
    pub winner: Key,
    pub ticket_id: u64,
    pub won_item: WonItem,
    pub reward_amount: u64,
    pub timestamp: i64,
}

/// What claiming a reward comes to: the payment that the vault owes the
/// winner, and the event.
#[derive(Debug)]
pub struct RewardClaim {
    /// Lamports to move from the vault to the winner.
    pub payment: u64,
    pub event: RewardClaimedEvent,
}

/// Why claiming a reward is refused, if it is. The checks come in this
/// order: the pool is active, the ticket is the signer's, it belongs to the
/// pool, it has been spun, its reward has not been claimed, it has won an
/// item, and the vault can pay the price of the item out.
pub open spec fn claim_error(pool: CompanyPool, ticket: UserTicket, ctx: ClaimReward) -> Option<
    ErrorCode,
> {
    if !pool.active {
        Some(ErrorCode::PoolInactive)
    } else if ticket.owner@ != ctx.spinner@ {
        Some(ErrorCode::NotTicketOwner)
    } else if ticket.company_pool@ != ctx.company_pool@ {
        Some(ErrorCode::InvalidTicketPool)
    } else if !ticket.used {
        Some(ErrorCode::TicketNotUsed)
    } else if ticket.reward_claimed {
        Some(ErrorCode::RewardAlreadyClaimed)
    } else if ticket.won_item is None {
        Some(ErrorCode::NoRewardToClaim)
    } else if ticket.won_item->Some_0.price > payable_balance(
        ctx.vault_lamports,
        ctx.rent_exempt_minimum,
    ) {
        Some(ErrorCode::InsufficientVaultFunds)
    } else {
        None
    }
}

/// Claims the reward of a ticket: the price of the item that it has won. The
/// ticket is marked as claimed and the funds of the pool go down by the
/// reward, to zero at the lowest. A refusal leaves the pool and the ticket
/// as they were.
pub fn claim_reward(
    company_pool: &mut CompanyPool,
    user_ticket: &mut UserTicket,
    ctx: &ClaimReward,
) -> (outcome: Result<RewardClaim, ErrorCode>)
    ensures
        match outcome {
            Ok(claimed) => {
                let won = old(user_ticket).won_item->Some_0;
                &&& claim_error(*old(company_pool), *old(user_ticket), *ctx) is None
                &&& *final(user_ticket) == (UserTicket {
                    reward_claimed: true,
                    ..*old(user_ticket)
                })
                &&& *final(company_pool) == (CompanyPool {
                    total_funds: if old(company_pool).total_funds >= won.price {
                        (old(company_pool).total_funds - won.price) as u64
                    } else {
                        0
                    },
                    ..*old(company_pool)
                })
                &&& claimed.payment == won.price
                &&& claimed.event == (RewardClaimedEvent {
                    winner: ctx.spinner,
                    ticket_id: old(user_ticket).ticket_id,
                    won_item: won,
                    reward_amount: won.price,
                    timestamp: ctx.unix_timestamp,
                })
            },
            Err(error) => {
                &&& claim_error(*old(company_pool), *old(user_ticket), *ctx) == Some(error)
                &&& *final(company_pool) == *old(company_pool)
                &&& *final(user_ticket) == *old(user_ticket)
            },
        },
{
    if !company_pool.active {
        return Err(ErrorCode::PoolInactive);
    }
    if !same_key(&user_ticket.owner, &ctx.spinner) {
        return Err(ErrorCode::NotTicketOwner);
    }
    if !same_key(&user_ticket.company_pool, &ctx.company_pool) {
        return Err(ErrorCode::InvalidTicketPool);
    }
    if !user_ticket.used {
        return Err(ErrorCode::TicketNotUsed);
    }
    if user_ticket.reward_claimed {
        return Err(ErrorCode::RewardAlreadyClaimed);
    }
    let won_item = match &user_ticket.won_item {
        Some(won_item) => won_item.clone(),
        None => {
            return Err(ErrorCode::NoRewardToClaim);
        },
    };
    let reward_amount = won_item.price;
    let available_balance = ctx.vault_lamports.saturating_sub(ctx.rent_exempt_minimum);
    if reward_amount > available_balance {
        return Err(ErrorCode::InsufficientVaultFunds);
    }
    user_ticket.reward_claimed = true;
    company_pool.total_funds = company_pool.total_funds.saturating_sub(reward_amount);
    let event = RewardClaimedEvent {
        winner: ctx.spinner,
        ticket_id: user_ticket.ticket_id,
        won_item,
        reward_amount,
        timestamp: ctx.unix_timestamp,
    };
    Ok(RewardClaim { payment: reward_amount, event })
}

/// What asking for the tickets of a user is called with: the key of the
/// user.
#[derive(Debug)]
pub struct GetUserTickets {
    pub user: Key,
}

/// Asks for the tickets of a user. The records of the tickets are read where
/// they are kept; there is nothing to decide here, and nothing is refused.
pub fn get_user_tickets(ctx: &GetUserTickets) -> (outcome: Result<(), ErrorCode>)
    ensures
        outcome is Ok,
{
    Ok(())
}

/// What recording a spin is called with: the key of the signing spinner,
/// the key of the pool's account, the balance of the vault, the time and the
/// slot.
#[derive(Debug)]
pub struct RecordSpinResult {
    pub spinner: Key,
    pub company_pool: Key,
    pub vault_lamports: u64,
    pub unix_timestamp: i64,
    pub slot: u64,
}

/// Emitted when a spin has been recorded.
#[derive(Debug)]
pub struct SpinResultEvent {
    pub spinner: Key,
    pub won_item: Option<PoolItem>,
    pub item_index: Option<u32>,
    pub item_value: u64,
    pub win_probability: u32,
    pub random_seed: u64,
    pub ticket_id: u64,
    pub timestamp: i64,
}

/// An item can be won: it is available and its probability is above zero.
pub open spec fn eligible(item: PoolItem) -> bool {
    item.available && item.probability > 0
}

/// The indices, in rising order, of the items among the first `count` that
/// can be won.
pub open spec fn eligible_indices(items: Seq<PoolItem>, count: int) -> Seq<int>
    decreases count,
{
    if count <= 0 {
        Seq::empty()
    } else if eligible(items[count - 1]) {
        eligible_indices(items, count - 1).push(count - 1)
    } else {
        eligible_indices(items, count - 1)
    }
}

/// The probabilities on record of the items that can be won, in the order
/// of the items.
pub open spec fn eligible_probabilities(items: Seq<PoolItem>) -> Seq<u32> {
    let indices = eligible_indices(items, items.len() as int);
    Seq::new(indices.len(), |k: int| items[indices[k]].probability)
}

/// The seed that a spin is recorded with.
pub open spec fn seed_of_spin(pool: CompanyPool, ticket: UserTicket, ctx: RecordSpinResult) -> u64 {
    spin_seed(
        ctx.unix_timestamp,
        ctx.spinner@,
        pool.total_tickets_sold,
        ctx.vault_lamports,
        ctx.slot,
        ticket.ticket_id,
    )
}

/// The index, among the items of the pool, of the item that a spin wins: the
/// selector's choice among the items that can be won.
pub open spec fn won_index(pool: CompanyPool, ticket: UserTicket, ctx: RecordSpinResult) -> int {
    let indices = eligible_indices(pool.items@, pool.items.len() as int);
    let chosen = selection(eligible_probabilities(pool.items@), seed_of_spin(pool, ticket, ctx));
    indices[chosen->Ok_0]
}

/// The record of a won item.
pub open spec fn won_item_of(item: PoolItem, index: int) -> WonItem {
    WonItem {
        name: item.name,
        price: item.price,
        image: item.image,
        description: item.description,
        item_index: index as u32,
    }
}

/// Why recording a spin is refused, if it is. The checks come in this order:
/// the pool is active, it has items, the ticket is the signer's, it belongs
/// to the pool, it has not been used, and one of the items can be won.
pub open spec fn spin_error(pool: CompanyPool, ticket: UserTicket, ctx: RecordSpinResult) -> Option<
    ErrorCode,
> {
    if !pool.active {
        Some(ErrorCode::PoolInactive)
    } else if pool.items.len() == 0 {
        Some(ErrorCode::NoItemsProvided)
    } else if ticket.owner@ != ctx.spinner@ {
        Some(ErrorCode::NotTicketOwner)
    } else if ticket.company_pool@ != ctx.company_pool@ {
        Some(ErrorCode::InvalidTicketPool)
    } else if ticket.used {
        Some(ErrorCode::TicketAlreadyUsed)
    } else if eligible_indices(pool.items@, pool.items.len() as int).len() == 0 {
        Some(ErrorCode::NoAvailableItems)
    } else {
        None
    }
}

/// Every index that can be won lies within the items and names an item that
/// can be won, and there are no more of them than items looked at.
pub proof fn lemma_eligible_indices(items: Seq<PoolItem>, count: int)
    requires
        0 <= count <= items.len(),
    ensures
        eligible_indices(items, count).len() <= count,
        forall|k: int|
            0 <= k < eligible_indices(items, count).len() ==> {
                let index = #[trigger] eligible_indices(items, count)[k];
                0 <= index < count && eligible(items[index])
            },
    decreases count,
{
    if count > 0 {
        lemma_eligible_indices(items, count - 1);
    }
}

/// The items that can be won, by index, with their probabilities.
pub fn eligible_items(items: &Vec<PoolItem>) -> (found: (Vec<usize>, Vec<u32>))
    ensures
        found.0.len() == eligible_indices(items@, items.len() as int).len(),
        forall|k: int|
            0 <= k < found.0.len() ==> #[trigger] found.0[k] as int == eligible_indices(
                items@,
                items.len() as int,
            )[k],
        forall|k: int| 0 <= k < found.0.len() ==> #[trigger] found.0[k] < items.len(),
        found.1@ == eligible_probabilities(items@),
        forall|k: int| 0 <= k < found.1.len() ==> #[trigger] found.1[k] > 0,
{
    let mut indices: Vec<usize> = Vec::new();
    let mut probabilities: Vec<u32> = Vec::new();
    let mut i: usize = 0;
    while i < items.len()
        invariant
            i <= items.len(),
            indices.len() == eligible_indices(items@, i as int).len(),
            probabilities.len() == indices.len(),
            forall|k: int|
                0 <= k < indices.len() ==> #[trigger] indices[k] as int == eligible_indices(
                    items@,
                    i as int,
                )[k],
            forall|k: int| 0 <= k < indices.len() ==> #[trigger] indices[k] < i,
            forall|k: int|
                0 <= k < indices.len() ==> #[trigger] probabilities[k] == items[indices[k] as int].probability,
            forall|k: int| 0 <= k < probabilities.len() ==> #[trigger] probabilities[k] > 0,
        decreases items.len() - i,
    {
        if items[i].available && items[i].probability > 0 {
            indices.push(i);
            probabilities.push(items[i].probability);
        }
        i = i + 1;
    }
    assert(probabilities@ =~= eligible_probabilities(items@));
    (indices, probabilities)
}

/// Records a spin: the seed is folded from the values that the spin is
/// recorded with, the selector picks one of the items that can be won, and
/// the ticket is marked as used and takes the item. The probabilities on
/// record stay as they are. A refusal leaves the ticket as it was.
pub fn record_spin_result(
    company_pool: &CompanyPool,
    user_ticket: &mut UserTicket,
    ctx: &RecordSpinResult,
) -> (outcome: Result<SpinResultEvent, ErrorCode>)
    ensures
        match outcome {
            Ok(event) => {
                let index = won_index(*company_pool, *old(user_ticket), *ctx);
                let item = company_pool.items[index];
                &&& spin_error(*company_pool, *old(user_ticket), *ctx) is None
                &&& selection(
                    eligible_probabilities(company_pool.items@),
                    seed_of_spin(*company_pool, *old(user_ticket), *ctx),
                ) is Ok
                &&& 0 <= index < company_pool.items.len()
                &&& eligible(item)
                &&& *final(user_ticket) == (UserTicket {
                    used: true,
                    won_item: Some(won_item_of(item, index)),
                    ..*old(user_ticket)
                })
                &&& event == (SpinResultEvent {
                    spinner: ctx.spinner,
                    won_item: Some(item),
                    item_index: Some(index as u32),
                    item_value: item.price,
                    win_probability: item.probability,
                    random_seed: seed_of_spin(*company_pool, *old(user_ticket), *ctx),
                    ticket_id: old(user_ticket).ticket_id,
                    timestamp: ctx.unix_timestamp,
                })
            },
            Err(error) => {
                &&& spin_error(*company_pool, *old(user_ticket), *ctx) == Some(error)
                &&& *final(user_ticket) == *old(user_ticket)
            },
        },
{
    if !company_pool.active {
        return Err(ErrorCode::PoolInactive);
    }
    if company_pool.items.len() == 0 {
        return Err(ErrorCode::NoItemsProvided);
    }
    if !same_key(&user_ticket.owner, &ctx.spinner) {
        return Err(ErrorCode::NotTicketOwner);
    }
    if !same_key(&user_ticket.company_pool, &ctx.company_pool) {
        return Err(ErrorCode::InvalidTicketPool);
    }
    if user_ticket.used {
        return Err(ErrorCode::TicketAlreadyUsed);
    }
    let (indices, probabilities) = eligible_items(&company_pool.items);
    if indices.len() == 0 {
        return Err(ErrorCode::NoAvailableItems);
    }
    let random_seed = derive_spin_seed(
        ctx.unix_timestamp,
        &ctx.spinner,
        company_pool.total_tickets_sold,
        ctx.vault_lamports,
        ctx.slot,
        user_ticket.ticket_id,
    );
    proof {
        lemma_eligible_indices(company_pool.items@, company_pool.items.len() as int);
        let points = point_ints(probabilities@);
        assert(points[0] == probabilities[0]);
        lemma_entry_within_total(points, 0);
    }
    // the selector never refuses here: every listed probability is above zero
    let winning_index = match select_winning_item_index(probabilities.as_slice(), random_seed) {
        Ok(winning_index) => winning_index,
        Err(_) => {
            return Err(ErrorCode::ProbabilitySelectionFailed);
        },
    };
    let actual_index = indices[winning_index];
    let winning_item = &company_pool.items[actual_index];
    let item_index: u32 = #[verifier::truncate]
    (actual_index as u32);
    user_ticket.used = true;
    user_ticket.won_item = Some(
        WonItem {
            name: winning_item.name.clone(),
            price: winning_item.price,
            image: winning_item.image.clone(),
            description: winning_item.description.clone(),
            item_index,
        },
    );
    Ok(
        SpinResultEvent {
            spinner: ctx.spinner,
            won_item: Some(winning_item.clone()),
            item_index: Some(item_index),
            item_value: winning_item.price,
            win_probability: winning_item.probability,
            random_seed,
            ticket_id: user_ticket.ticket_id,
            timestamp: ctx.unix_timestamp,
        },
    )
}

/// Emitted for every item when the analysis of a pool is asked for.
#[derive(Debug)]
pub struct ProbabilityAnalysisEvent {
    pub item_name: String,
    pub item_value: u64,
    /// The probability on record for the item.
    pub probability_basis_points: u32,
    pub expected_spins: Fraction,
    pub expected_cost: Fraction,
    pub profit: Fraction,
    pub profit_ratio: Option<Fraction>,
}

/// What asking for the analysis of a pool is called with: the record of the
/// pool.
#[derive(Debug)]
pub struct GetProbabilityAnalysis {
    pub company_pool: CompanyPool,
}

/// The analysis event of an item: its name, its price and its probability on
/// record, with the figures that follow from them and the ticket price.
pub open spec fn analysis_event_of(item: PoolItem, ticket_price: u64) -> ProbabilityAnalysisEvent {
    ProbabilityAnalysisEvent {
        item_name: item.name,
        item_value: item.price,
        probability_basis_points: item.probability,
        expected_spins: expected_spins(item.probability)->Finite_0,
        expected_cost: expected_cost(item.probability, ticket_price),
        profit: profit(item.price, item.probability, ticket_price),
        profit_ratio: profit_ratio(item.price, item.probability, ticket_price),
    }
}

/// The analysis events of the first `count` items of a pool, in the order of
/// the items. An item whose probability on record is zero has no figures
/// and no event.
pub open spec fn analysis_events(items: Seq<PoolItem>, ticket_price: u64, count: int) -> Seq<
    ProbabilityAnalysisEvent,
>
    decreases count,
{
    if count <= 0 {
        Seq::empty()
    } else if items[count - 1].probability == 0 {
        analysis_events(items, ticket_price, count - 1)
    } else {
        analysis_events(items, ticket_price, count - 1).push(
            analysis_event_of(items[count - 1], ticket_price),
        )
    }
}

/// Draws up the analysis of a pool: for every item whose probability on
/// record is above zero an event with what the item is expected to cost a
/// participant against what it is worth, from that probability and the
/// ticket price. Nothing is changed, and nothing is refused.
pub fn get_probability_analysis(ctx: &GetProbabilityAnalysis) -> (outcome: Result<
    Vec<ProbabilityAnalysisEvent>,
    ErrorCode,
>)
    ensures
        outcome matches Ok(events) && events@ == analysis_events(
            ctx.company_pool.items@,
            ctx.company_pool.ticket_price,
            ctx.company_pool.items.len() as int,
        ),
{
    let items = &ctx.company_pool.items;
    let ticket_price = ctx.company_pool.ticket_price;
    let mut events: Vec<ProbabilityAnalysisEvent> = Vec::new();
    let mut i: usize = 0;
    while i < items.len()
        invariant
            i <= items.len(),
            events@ == analysis_events(items@, ticket_price, i as int),
        decreases items.len() - i,
    {
        let item = &items[i];
        match analyze_profitability(item.name.clone(), item.price, item.probability, ticket_price) {
            Some(analysis) => {
                events.push(
                    ProbabilityAnalysisEvent {
                        item_name: analysis.item_name,
                        item_value: analysis.item_value,
                        probability_basis_points: item.probability,
                        expected_spins: analysis.expected_spins,
                        expected_cost: analysis.expected_cost,
                        profit: analysis.profit,
                        profit_ratio: analysis.profit_ratio,
                    },
                );
            },
            None => {},
        }
        i = i + 1;
    }
    Ok(events)
}

} // verus!
