use prize_pool::ledger::{eligible_items, same_key, text_length, Key};
use prize_pool::seed::{derive_spin_seed, fold_key};
use prize_pool::{
    buy_ticket, claim_reward, get_probability_analysis, get_user_tickets,
    initialize_company_pool, record_spin_result, withdraw_funds_from_vault, BuyTicket,
    ClaimReward, CompanyPool, ErrorCode, GetProbabilityAnalysis, GetUserTickets,
    InitializeCompanyPool, PoolItemInput, RecordSpinResult, UserTicket, WithdrawFundsFromVault,
};
use prize_pool::allocation::ProbabilityError;
use prize_pool::analysis::Fraction;

const AUTHORITY: Key = [9u8; 32];
const POOL: Key = [7u8; 32];

fn spinner() -> Key {
    let mut key = [0u8; 32];
    for (i, byte) in key.iter_mut().enumerate() {
        *byte = i as u8 + 1;
    }
    key
}

fn input(name: &str, price: u64) -> PoolItemInput {
    PoolItemInput {
        image: format!("{name}.png"),
        price,
        name: name.to_string(),
        description: format!("a {name}"),
    }
}

fn setup() -> InitializeCompanyPool {
    InitializeCompanyPool {
        authority: AUTHORITY,
        vault_lamports: 0,
        rent_exempt_minimum: 890_880,
        unix_timestamp: 1_700_000_000,
    }
}

fn pool() -> CompanyPool {
    initialize_company_pool(
        &setup(),
        10,
        "Acme".to_string(),
        "acme.png".to_string(),
        vec![input("Common", 100), input("Rare", 500), input("Legendary", 2000)],
    )
    .unwrap()
    .company_pool
}

fn ticket_of(company_pool: &mut CompanyPool) -> UserTicket {
    let ctx = BuyTicket { buyer: spinner(), company_pool: POOL, unix_timestamp: 1_700_000_001 };
    buy_ticket(company_pool, &ctx).unwrap().user_ticket
}

fn spin(slot: u64) -> RecordSpinResult {
    RecordSpinResult {
        spinner: spinner(),
        company_pool: POOL,
        vault_lamports: 1_234_567,
        unix_timestamp: 1_700_000_000,
        slot,
    }
}

#[test]
fn a_pool_is_set_up_with_allocated_probabilities() {
    let done = initialize_company_pool(
        &setup(),
        10,
        "Acme".to_string(),
        "acme.png".to_string(),
        vec![input("Common", 100), input("Rare", 500), input("Legendary", 2000)],
    )
    .unwrap();
    let company_pool = &done.company_pool;
    assert_eq!(company_pool.authority, AUTHORITY);
    assert_eq!(company_pool.company_name, "Acme");
    assert_eq!(company_pool.company_image, "acme.png");
    assert_eq!(company_pool.ticket_price, 10);
    assert_eq!(company_pool.total_value, 2600);
    assert_eq!(company_pool.total_tickets_sold, 0);
    assert_eq!(company_pool.total_funds, 0);
    assert!(company_pool.active);
    assert_eq!(company_pool.created_at, 1_700_000_000);
    let probabilities: Vec<u32> = company_pool.items.iter().map(|i| i.probability).collect();
    assert_eq!(probabilities, vec![9086, 813, 101]);
    assert_eq!(probabilities.iter().sum::<u32>(), 10_000);
    assert!(company_pool.items.iter().all(|i| i.available));
    assert_eq!(company_pool.items[1].name, "Rare");
    assert_eq!(company_pool.items[1].price, 500);
    assert_eq!(company_pool.items[1].image, "Rare.png");
    assert_eq!(company_pool.items[1].description, "a Rare");
    assert_eq!(done.vault_deposit, Some(890_880));
    assert_eq!(done.event.company_name, "Acme");
    assert_eq!(done.event.ticket_price, 10);
    assert_eq!(done.event.item_count, 3);
    assert_eq!(done.event.authority, AUTHORITY);
    assert_eq!(done.event.total_probability_check, 10_000);
}

#[test]
fn a_funded_vault_needs_no_deposit() {
    let mut ctx = setup();
    ctx.vault_lamports = 890_880;
    let done = initialize_company_pool(
        &ctx,
        10,
        "Acme".to_string(),
        String::new(),
        vec![input("Only", 100)],
    )
    .unwrap();
    assert_eq!(done.vault_deposit, None);
    assert_eq!(done.company_pool.items[0].probability, 10_000);
}

fn refused(
    ticket_price: u64,
    company_name: &str,
    company_image: &str,
    items: Vec<PoolItemInput>,
) -> ErrorCode {
    initialize_company_pool(
        &setup(),
        ticket_price,
        company_name.to_string(),
        company_image.to_string(),
        items,
    )
    .err()
    .unwrap()
}

#[test]
fn setting_up_a_pool_checks_its_arguments_in_order() {
    let long = "x".repeat(51);
    let longer = "x".repeat(201);
    assert_eq!(refused(0, &long, "", vec![]), ErrorCode::InvalidTicketPrice);
    assert_eq!(refused(10, &long, "", vec![]), ErrorCode::NoItemsProvided);
    assert_eq!(refused(10, &long, &longer, vec![input("a", 1)]), ErrorCode::CompanyNameTooLong);
    assert_eq!(refused(10, "Acme", &longer, vec![input("a", 1)]), ErrorCode::CompanyImageTooLong);
    let eleven: Vec<PoolItemInput> = (0..11).map(|_| input("a", 0)).collect();
    assert_eq!(refused(10, "Acme", "", eleven), ErrorCode::TooManyItems);
    assert_eq!(
        refused(10, "Acme", "", vec![input("a", 1), input(&long, 0)]),
        ErrorCode::InvalidItemPrice
    );
    assert_eq!(
        refused(10, "Acme", "", vec![input(&long, 1), input("b", 0)]),
        ErrorCode::ItemNameTooLong
    );
    let mut item = input("a", 1);
    item.image = longer.clone();
    item.description = longer.clone();
    assert_eq!(refused(10, "Acme", "", vec![item]), ErrorCode::ItemImageTooLong);
    let mut item = input("a", 1);
    item.description = longer.clone();
    assert_eq!(refused(10, "Acme", "", vec![item]), ErrorCode::ItemDescriptionTooLong);
    let cheap = initialize_company_pool(
        &setup(),
        1 << 32,
        "Acme".to_string(),
        String::new(),
        vec![input("a", 1)],
    )
    .unwrap();
    assert_eq!(cheap.company_pool.items[0].probability, 10_000);
    assert_eq!(
        refused(10, "Acme", "", vec![input("a", u64::MAX), input("b", 1)]),
        ErrorCode::MathOverflow
    );
}

#[test]
fn lengths_are_counted_in_bytes_and_the_limits_are_inclusive() {
    assert_eq!(text_length(&"héllo".to_string()), 6);
    let fifty = "x".repeat(50);
    let two_hundred = "y".repeat(200);
    let mut item = input(&fifty, 1);
    item.image = two_hundred.clone();
    item.description = two_hundred.clone();
    let done =
        initialize_company_pool(&setup(), 10, fifty.clone(), two_hundred.clone(), vec![item]);
    assert!(done.is_ok());
    let accented = "é".repeat(26);
    assert_eq!(refused(10, &accented, "", vec![input("a", 1)]), ErrorCode::CompanyNameTooLong);
}

#[test]
fn buying_a_ticket_counts_it_and_its_price() {
    let mut company_pool = pool();
    let ctx = BuyTicket { buyer: spinner(), company_pool: POOL, unix_timestamp: 1_700_000_001 };
    let bought = buy_ticket(&mut company_pool, &ctx).unwrap();
    assert_eq!(bought.payment, 10);
    assert_eq!(bought.user_ticket.owner, spinner());
    assert_eq!(bought.user_ticket.company_pool, POOL);
    assert_eq!(bought.user_ticket.purchased_at, 1_700_000_001);
    assert!(!bought.user_ticket.used);
    assert_eq!(bought.user_ticket.ticket_id, 0);
    assert!(bought.user_ticket.won_item.is_none());
    assert!(!bought.user_ticket.reward_claimed);
    assert_eq!(bought.event.buyer, spinner());
    assert_eq!(bought.event.ticket_price, 10);
    assert_eq!(bought.event.total_tickets_sold, 1);
    assert_eq!(bought.event.ticket_id, 0);
    assert_eq!(bought.event.timestamp, 1_700_000_001);
    assert_eq!(company_pool.total_tickets_sold, 1);
    assert_eq!(company_pool.total_funds, 10);

    let second = buy_ticket(&mut company_pool, &ctx).unwrap();
    assert_eq!(second.user_ticket.ticket_id, 1);
    assert_eq!(company_pool.total_tickets_sold, 2);
    assert_eq!(company_pool.total_funds, 20);
}

#[test]
fn buying_a_ticket_is_refused_without_change() {
    let ctx = BuyTicket { buyer: spinner(), company_pool: POOL, unix_timestamp: 1 };
    let mut inactive = pool();
    inactive.active = false;
    assert_eq!(buy_ticket(&mut inactive, &ctx).err(), Some(ErrorCode::PoolInactive));
    assert_eq!(inactive.total_tickets_sold, 0);

    let mut empty = pool();
    empty.items.clear();
    assert_eq!(buy_ticket(&mut empty, &ctx).err(), Some(ErrorCode::NoItemsProvided));

    let mut sold_out = pool();
    sold_out.total_tickets_sold = u64::MAX;
    assert_eq!(buy_ticket(&mut sold_out, &ctx).err(), Some(ErrorCode::MathOverflow));
    assert_eq!(sold_out.total_funds, 0);

    let mut rich = pool();
    rich.total_funds = u64::MAX - 9;
    assert_eq!(buy_ticket(&mut rich, &ctx).err(), Some(ErrorCode::MathOverflow));
    assert_eq!(rich.total_tickets_sold, 0);
    assert_eq!(rich.total_funds, u64::MAX - 9);
}

fn withdrawal(vault_lamports: u64) -> WithdrawFundsFromVault {
    WithdrawFundsFromVault {
        authority: AUTHORITY,
        vault_lamports,
        rent_exempt_minimum: 1000,
        unix_timestamp: 1_700_000_002,
    }
}

#[test]
fn withdrawing_lowers_the_funds() {
    let mut company_pool = pool();
    company_pool.total_funds = 500;
    let done = withdraw_funds_from_vault(&mut company_pool, &withdrawal(1400), 400).unwrap();
    assert_eq!(done.payment, 400);
    assert_eq!(done.event.authority, AUTHORITY);
    assert_eq!(done.event.amount_withdrawn, 400);
    assert_eq!(done.event.remaining_funds, 100);
    assert_eq!(done.event.timestamp, 1_700_000_002);
    assert_eq!(company_pool.total_funds, 100);
}

#[test]
fn withdrawing_is_refused_in_order() {
    let mut company_pool = pool();
    company_pool.active = false;
    let mut stranger = withdrawal(0);
    stranger.authority = spinner();
    assert_eq!(
        withdraw_funds_from_vault(&mut company_pool, &stranger, 0).err(),
        Some(ErrorCode::PoolInactive)
    );
    company_pool.active = true;
    assert_eq!(
        withdraw_funds_from_vault(&mut company_pool, &stranger, 0).err(),
        Some(ErrorCode::NoFundsAvailable)
    );
    company_pool.total_funds = 500;
    assert_eq!(
        withdraw_funds_from_vault(&mut company_pool, &stranger, 0).err(),
        Some(ErrorCode::UnauthorizedWithdrawal)
    );
    assert_eq!(
        withdraw_funds_from_vault(&mut company_pool, &withdrawal(0), 0).err(),
        Some(ErrorCode::InvalidAmount)
    );
    assert_eq!(
        withdraw_funds_from_vault(&mut company_pool, &withdrawal(0), 501).err(),
        Some(ErrorCode::InsufficientFunds)
    );
    assert_eq!(
        withdraw_funds_from_vault(&mut company_pool, &withdrawal(1399), 400).err(),
        Some(ErrorCode::InsufficientVaultFunds)
    );
    assert_eq!(
        withdraw_funds_from_vault(&mut company_pool, &withdrawal(999), 1).err(),
        Some(ErrorCode::InsufficientVaultFunds)
    );
    assert_eq!(company_pool.total_funds, 500);
}

#[test]
fn the_seed_folds_the_values_of_the_spin() {
    assert_eq!(fold_key(&spinner()), 578_437_695_752_307_201);
    assert_eq!(fold_key(&[0u8; 32]), 0);
    assert_eq!(
        derive_spin_seed(1_700_000_000, &spinner(), 5, 1_234_567, 42, 7),
        578_437_697_316_726_190
    );
    assert_eq!(derive_spin_seed(-1, &[0u8; 32], 0, 0, 0, 0), u64::MAX);
    assert_eq!(derive_spin_seed(0, &[0u8; 32], 0, 0, 0, 0), 0);
}

#[test]
fn a_spin_selects_by_the_seed_among_all_items() {
    let mut company_pool = pool();
    let mut ticket = ticket_of(&mut company_pool);
    let event = record_spin_result(&company_pool, &mut ticket, &spin(42)).unwrap();
    assert_eq!(event.random_seed, 578_437_697_316_726_189);
    assert_eq!(event.item_index, Some(0));
    assert_eq!(event.item_value, 100);
    assert_eq!(event.win_probability, 9086);
    assert_eq!(event.ticket_id, 0);
    assert_eq!(event.spinner, spinner());
    assert_eq!(event.timestamp, 1_700_000_000);
    assert_eq!(event.won_item.as_ref().unwrap().name, "Common");
    assert!(ticket.used);
    let won = ticket.won_item.as_ref().unwrap();
    assert_eq!(won.name, "Common");
    assert_eq!(won.price, 100);
    assert_eq!(won.image, "Common.png");
    assert_eq!(won.description, "a Common");
    assert_eq!(won.item_index, 0);

    let mut second = ticket_of(&mut company_pool);
    second.ticket_id = 0;
    company_pool.total_tickets_sold = 1;
    let event = record_spin_result(&company_pool, &mut second, &spin(4480)).unwrap();
    assert_eq!(event.random_seed, 578_437_697_316_729_863);
    assert_eq!(event.item_index, Some(1));
    assert_eq!(second.won_item.as_ref().unwrap().name, "Rare");

    let mut third = ticket_of(&mut company_pool);
    third.ticket_id = 0;
    company_pool.total_tickets_sold = 1;
    let event = record_spin_result(&company_pool, &mut third, &spin(4352)).unwrap();
    assert_eq!(event.item_index, Some(2));
    assert_eq!(event.item_value, 2000);
    assert_eq!(event.win_probability, 101);
    assert_eq!(third.won_item.as_ref().unwrap().item_index, 2);
}

#[test]
fn a_spin_passes_over_items_that_cannot_be_won() {
    let mut company_pool = pool();
    let mut ticket = ticket_of(&mut company_pool);
    company_pool.items[0].available = false;
    assert_eq!(eligible_items(&company_pool.items), (vec![1, 2], vec![813, 101]));
    let event = record_spin_result(&company_pool, &mut ticket, &spin(42)).unwrap();
    assert_eq!(event.random_seed % 914, 423);
    assert_eq!(event.item_index, Some(1));
    assert_eq!(ticket.won_item.as_ref().unwrap().name, "Rare");
    assert_eq!(ticket.won_item.as_ref().unwrap().item_index, 1);
    assert_eq!(company_pool.items[0].probability, 9086);

    let mut other = ticket_of(&mut company_pool);
    other.ticket_id = 0;
    company_pool.total_tickets_sold = 1;
    let event = record_spin_result(&company_pool, &mut other, &spin(386)).unwrap();
    assert_eq!(event.random_seed, 578_437_697_316_725_765);
    assert_eq!(event.item_index, Some(2));
    assert_eq!(other.won_item.as_ref().unwrap().name, "Legendary");
}

#[test]
fn a_spin_is_refused_in_order_and_leaves_the_ticket() {
    let mut company_pool = pool();
    let mut ticket = ticket_of(&mut company_pool);

    let mut inactive = pool();
    inactive.active = false;
    let mut stranger = spin(42);
    stranger.spinner = AUTHORITY;
    assert_eq!(
        record_spin_result(&inactive, &mut ticket, &stranger).err(),
        Some(ErrorCode::PoolInactive)
    );
    assert_eq!(
        record_spin_result(&company_pool, &mut ticket, &stranger).err(),
        Some(ErrorCode::NotTicketOwner)
    );
    let mut elsewhere = spin(42);
    elsewhere.company_pool = AUTHORITY;
    assert_eq!(
        record_spin_result(&company_pool, &mut ticket, &elsewhere).err(),
        Some(ErrorCode::InvalidTicketPool)
    );
    let mut used = ticket_of(&mut company_pool);
    used.used = true;
    assert_eq!(
        record_spin_result(&company_pool, &mut used, &spin(42)).err(),
        Some(ErrorCode::TicketAlreadyUsed)
    );
    let mut empty = pool();
    empty.items.clear();
    assert_eq!(
        record_spin_result(&empty, &mut used, &stranger).err(),
        Some(ErrorCode::NoItemsProvided)
    );
    let mut exhausted = pool();
    for item in exhausted.items.iter_mut() {
        item.available = false;
    }
    assert_eq!(
        record_spin_result(&exhausted, &mut ticket, &spin(42)).err(),
        Some(ErrorCode::NoAvailableItems)
    );
    assert!(!ticket.used);
    assert!(ticket.won_item.is_none());
}

fn claim(vault_lamports: u64) -> ClaimReward {
    ClaimReward {
        spinner: spinner(),
        company_pool: POOL,
        vault_lamports,
        rent_exempt_minimum: 1000,
        unix_timestamp: 1_700_000_003,
    }
}

#[test]
fn a_reward_is_claimed_once() {
    let mut company_pool = pool();
    let mut ticket = ticket_of(&mut company_pool);
    record_spin_result(&company_pool, &mut ticket, &spin(42)).unwrap();
    company_pool.total_funds = 250;
    let claimed = claim_reward(&mut company_pool, &mut ticket, &claim(1100)).unwrap();
    assert_eq!(claimed.payment, 100);
    assert_eq!(claimed.event.winner, spinner());
    assert_eq!(claimed.event.ticket_id, 0);
    assert_eq!(claimed.event.won_item.name, "Common");
    assert_eq!(claimed.event.reward_amount, 100);
    assert_eq!(claimed.event.timestamp, 1_700_000_003);
    assert!(ticket.reward_claimed);
    assert_eq!(company_pool.total_funds, 150);
    assert_eq!(
        claim_reward(&mut company_pool, &mut ticket, &claim(1100)).err(),
        Some(ErrorCode::RewardAlreadyClaimed)
    );
    assert_eq!(company_pool.total_funds, 150);
}

#[test]
fn a_reward_above_the_funds_on_record_brings_them_to_zero() {
    let mut company_pool = pool();
    let mut ticket = ticket_of(&mut company_pool);
    record_spin_result(&company_pool, &mut ticket, &spin(42)).unwrap();
    assert_eq!(company_pool.total_funds, 10);
    claim_reward(&mut company_pool, &mut ticket, &claim(5000)).unwrap();
    assert_eq!(company_pool.total_funds, 0);
}

#[test]
fn a_claim_is_refused_in_order() {
    let mut company_pool = pool();
    let mut ticket = ticket_of(&mut company_pool);
    let mut inactive = pool();
    inactive.active = false;
    assert_eq!(
        claim_reward(&mut inactive, &mut ticket, &claim(5000)).err(),
        Some(ErrorCode::PoolInactive)
    );
    let mut stranger = claim(5000);
    stranger.spinner = AUTHORITY;
    assert_eq!(
        claim_reward(&mut company_pool, &mut ticket, &stranger).err(),
        Some(ErrorCode::NotTicketOwner)
    );
    let mut elsewhere = claim(5000);
    elsewhere.company_pool = AUTHORITY;
    assert_eq!(
        claim_reward(&mut company_pool, &mut ticket, &elsewhere).err(),
        Some(ErrorCode::InvalidTicketPool)
    );
    assert_eq!(
        claim_reward(&mut company_pool, &mut ticket, &claim(5000)).err(),
        Some(ErrorCode::TicketNotUsed)
    );
    ticket.used = true;
    assert_eq!(
        claim_reward(&mut company_pool, &mut ticket, &claim(5000)).err(),
        Some(ErrorCode::NoRewardToClaim)
    );
    ticket.used = false;
    record_spin_result(&company_pool, &mut ticket, &spin(42)).unwrap();
    assert_eq!(
        claim_reward(&mut company_pool, &mut ticket, &claim(1099)).err(),
        Some(ErrorCode::InsufficientVaultFunds)
    );
    assert!(!ticket.reward_claimed);
    assert_eq!(company_pool.total_funds, 10);
}

#[test]
fn the_analysis_lists_every_item_that_can_be_won() {
    let mut company_pool = pool();
    company_pool.items[1].probability = 0;
    company_pool.items[2].probability = 5;
    let events = get_probability_analysis(&GetProbabilityAnalysis { company_pool }).unwrap();
    assert_eq!(events.len(), 2);
    assert_eq!(events[0].item_name, "Common");
    assert_eq!(events[0].item_value, 100);
    assert_eq!(events[0].probability_basis_points, 9086);
    assert_eq!(events[0].expected_spins, Fraction { numerator: 10_000, denominator: 9086 });
    assert_eq!(events[0].expected_cost, Fraction { numerator: 100_000, denominator: 9086 });
    assert_eq!(events[0].profit, Fraction { numerator: 808_600, denominator: 9086 });
    assert_eq!(
        events[0].profit_ratio,
        Some(Fraction { numerator: 808_600, denominator: 100_000 })
    );
    assert_eq!(events[1].item_name, "Legendary");
    assert_eq!(events[1].item_value, 2000);
    assert_eq!(events[1].probability_basis_points, 5);
    assert_eq!(events[1].expected_spins, Fraction { numerator: 10_000, denominator: 5 });
    assert_eq!(events[1].expected_cost, Fraction { numerator: 100_000, denominator: 5 });
    assert_eq!(events[1].profit, Fraction { numerator: -90_000, denominator: 5 });
    assert_eq!(
        events[1].profit_ratio,
        Some(Fraction { numerator: -90_000, denominator: 100_000 })
    );
}

#[test]
fn the_analysis_of_a_fresh_pool_goes_by_the_allocated_probabilities() {
    let events =
        get_probability_analysis(&GetProbabilityAnalysis { company_pool: pool() }).unwrap();
    let chances: Vec<u32> = events.iter().map(|e| e.probability_basis_points).collect();
    assert_eq!(chances, vec![9086, 813, 101]);
    for event in &events {
        assert_eq!(
            event.expected_spins.numerator * event.probability_basis_points as i128,
            10_000 * event.expected_spins.denominator
        );
    }
}

#[test]
fn asking_for_the_tickets_of_a_user_is_never_refused() {
    assert_eq!(get_user_tickets(&GetUserTickets { user: spinner() }), Ok(()));
}

#[test]
fn keys_are_compared_byte_by_byte() {
    let mut other = spinner();
    assert!(same_key(&spinner(), &other));
    other[31] ^= 1;
    assert!(!same_key(&spinner(), &other));
}

#[test]
fn allocator_errors_have_their_ledger_codes() {
    assert_eq!(ErrorCode::from(ProbabilityError::NoItemsProvided), ErrorCode::NoItemsProvided);
    assert_eq!(ErrorCode::from(ProbabilityError::InvalidPrice), ErrorCode::InvalidTicketPrice);
    assert_eq!(ErrorCode::from(ProbabilityError::Overflow), ErrorCode::MathOverflow);
    assert_eq!(
        ErrorCode::from(ProbabilityError::InvalidProbabilityCalculation),
        ErrorCode::InvalidProbabilityCalculation
    );
    assert_eq!(ErrorCode::from(ProbabilityError::NoAvailableItems), ErrorCode::NoAvailableItems);
}
