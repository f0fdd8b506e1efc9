use crate::date::{
    lemma_before_last_year, lemma_later_month_later_day, month_index, months_later, Date, MAX_YEAR,
    MIN_YEAR,
};
use crate::day_count::DayCount;
use crate::error::QLabResult;
use crate::interpolation::Interpolator;
use crate::period::Months;
use crate::value::{zero, Value};
use crate::yield_curve::YieldCurve;
use vstd::prelude::*;

verus! {

/// How often a bond pays its coupon.
#[derive(Clone, Copy, Debug, PartialEq, Eq, Structural)]
pub enum Frequency {
    /// Once a year.
    A,
    /// Twice a year.
    SA,
    /// Four times a year.
    Q,
    /// Every month.
    M,
}

impl Frequency {
    pub open spec fn per_year(self) -> int {
        match self {
            Frequency::A => 1,
            Frequency::SA => 2,
            Frequency::Q => 4,
            Frequency::M => 12,
        }
    }

    /// The number of coupons a year.
    pub fn payments_per_year(self) -> (r: u32)
        ensures
            r == self.per_year(),
    {
        match self {
            Frequency::A => 1,
            Frequency::SA => 2,
            Frequency::Q => 4,
            Frequency::M => 12,
        }
    }
}

/// One payment of a bond.
#[derive(Clone, Copy, Debug)]
pub struct BondCashFlow<V> {
    pub due_date: Date,
    pub payment_date: Date,
    pub payment_amount: V,
}

/// A bond: an identifier and its cash flows, the final one last.
pub struct Bond<V> {
    bond_id: String,
    bond_cash_flows: Vec<BondCashFlow<V>>,
}

/// `pay` is `due` rolled past a weekend: a Saturday or Sunday moves to the
/// next Monday.
pub open spec fn weekend_rolled(due: Date, pay: Date) -> bool {
    if (due@ - 1) % 7 <= 4 {
        pay == due
    } else {
        pay@ == due@ + 7 - (due@ - 1) % 7
    }
}

/// The coupon paid in a regular period.
pub open spec fn regular_coupon<V: Value>(coupon_rate: V, face_value: V, frequency: Frequency) -> V {
    coupon_rate.mul_spec(face_value).div_spec(V::lit_spec(frequency.per_year()))
}

/// The first coupon: cut in proportion when the bond was issued inside the
/// first period (which starts at `prior`), or raised by the share of the
/// period before it (from `second_prior` to `prior`) when issued earlier.
pub open spec fn first_coupon<V: Value>(
    issue: Date,
    first_coupon_date: Date,
    prior: Date,
    second_prior: Date,
    regular: V,
) -> V {
    if prior@ < issue@ {
        regular.mul_spec(
            V::lit_spec(first_coupon_date@ - issue@).div_spec(V::lit_spec(first_coupon_date@ - prior@)),
        )
    } else if prior@ > issue@ {
        regular.add_spec(
            V::lit_spec(prior@ - issue@).div_spec(V::lit_spec(prior@ - second_prior@)).mul_spec(
                regular,
            ),
        )
    } else {
        regular
    }
}

/// The last coupon: cut in proportion when maturity comes before the regular
/// date `regular_end`, or raised by the share of the next period (to
/// `next_end`) when it comes after.
pub open spec fn final_coupon<V: Value>(
    penultimate: Date,
    maturity: Date,
    regular_end: Date,
    next_end: Date,
    regular: V,
) -> V {
    if maturity@ < regular_end@ {
        regular.mul_spec(
            V::lit_spec(maturity@ - penultimate@).div_spec(V::lit_spec(regular_end@ - penultimate@)),
        )
    } else if maturity@ > regular_end@ {
        regular.add_spec(
            V::lit_spec(maturity@ - regular_end@).div_spec(V::lit_spec(next_end@ - regular_end@)).mul_spec(
                regular,
            ),
        )
    } else {
        regular
    }
}

/// The present value at `settle` of the first `n` cash flows that are due
/// after `settle`, or `None` when one of their discount factors fails.
pub open spec fn present_value<D: DayCount, V: Value, I: Interpolator<V>>(
    curve: YieldCurve<D, V, I>,
    settle: Date,
    flows: Seq<BondCashFlow<V>>,
    n: nat,
) -> Option<V>
    decreases n,
{
    if n == 0 {
        Some(zero())
    } else {
        match present_value(curve, settle, flows, (n - 1) as nat) {
            None => None,
            Some(pv) => {
                let f = flows[n - 1];
                if settle@ < f.due_date@ {
                    let s = curve.settlement()@;
                    if f.payment_date@ < settle@ || settle@ < s || f.payment_date@ < s {
                        None
                    } else {
                        match curve.discount_spec(settle, f.payment_date) {
                            Ok(df) => Some(pv.add_spec(df.mul_spec(f.payment_amount))),
                            Err(_) => None,
                        }
                    }
                } else {
                    Some(pv)
                }
            },
        }
    }
}

impl<V: Value> Bond<V> {
    pub closed spec fn cash_flows(&self) -> Seq<BondCashFlow<V>> {
        self.bond_cash_flows@
    }

    pub closed spec fn id(&self) -> Seq<char> {
        self.bond_id@
    }

    /// Builds the bond's cash flows: a coupon every `12 / frequency` months
    /// from `first_coupon_date` up to `penultimate_coupon_date`, each paid on
    /// its due date rolled past weekends, the first one adjusted for the
    /// issue date; then the face value with the last coupon, adjusted for
    /// the maturity date, paid at maturity. `None` when a date leaves the
    /// range or no regular coupon falls due before the penultimate date.
    pub fn new(
        bond_id: &str,
        issue_date: Date,
        first_coupon_date: Date,
        penultimate_coupon_date: Date,
        maturity_date: Date,
        coupon_frequency: Frequency,
        coupon_rate: V,
        face_value: V,
    ) -> (r: Option<Self>)
        ensures
            first_coupon_date@ > penultimate_coupon_date@ ==> r.is_none(),
            first_coupon_date@ <= penultimate_coupon_date@ && MIN_YEAR + 2
                <= first_coupon_date.year_spec() && penultimate_coupon_date.year_spec() + 2 <= MAX_YEAR
                ==> r.is_some(),
            r.is_some() ==> {
                let b = r.unwrap();
                let fl = b.cash_flows();
                let k = fl.len() - 1;
                let months = 12int / coupon_frequency.per_year();
                let regular = regular_coupon(coupon_rate, face_value, coupon_frequency);
                &&& b.id() == bond_id@
                &&& fl.len() >= 2
                &&& fl[0].due_date == first_coupon_date
                &&& forall|i: int|
                    0 <= i < k - 1 ==> months_later(
                        #[trigger] fl[i].due_date,
                        months,
                        fl[i + 1].due_date,
                    )
                &&& forall|i: int|
                    0 <= i < k ==> (#[trigger] fl[i].due_date)@ <= penultimate_coupon_date@
                        && weekend_rolled(fl[i].due_date, fl[i].payment_date)
                &&& exists|next: Date|
                    #![trigger months_later(fl[k - 1].due_date, months, next)]
                    months_later(fl[k - 1].due_date, months, next) && next@
                        > penultimate_coupon_date@
                &&& forall|i: int| 1 <= i < k ==> (#[trigger] fl[i].payment_amount) == regular
                &&& exists|prior: Date, second_prior: Date|
                    #![trigger first_coupon(issue_date, first_coupon_date, prior, second_prior, regular)]
                    months_later(first_coupon_date, -months, prior) && (prior@ > issue_date@
                        ==> months_later(prior, -months, second_prior)) && fl[0].payment_amount
                        == first_coupon(
                        issue_date,
                        first_coupon_date,
                        prior,
                        second_prior,
                        regular,
                    )
                &&& fl[k].due_date == maturity_date
                &&& fl[k].payment_date == maturity_date
                &&& exists|regular_end: Date, next_end: Date|
                    #![trigger final_coupon(penultimate_coupon_date, maturity_date, regular_end, next_end, regular)]
                    months_later(penultimate_coupon_date, months, regular_end) && (maturity_date@
                        > regular_end@ ==> months_later(regular_end, months, next_end))
                        && fl[k].payment_amount == face_value.add_spec(
                        final_coupon(
                            penultimate_coupon_date,
                            maturity_date,
                            regular_end,
                            next_end,
                            regular,
                        ),
                    )
            },
    {
        let per_year = coupon_frequency.payments_per_year();
        let months = Months::new(12 / per_year);
        let regular_coupon_payment = coupon_rate.times(face_value).over(V::from_i32(per_year as i32));
        let penultimate = penultimate_coupon_date.serial_date();
        if first_coupon_date.serial_date() > penultimate {
            return None;
        }
        let bond_cash_flows = match Self::regular_cash_flows(
            first_coupon_date,
            penultimate_coupon_date,
            months,
            regular_coupon_payment,
        ) {
            Some(flows) => flows,
            None => return None,
        };
        let ghost m = 12int / coupon_frequency.per_year();
        let ghost regular_flows = bond_cash_flows@;
        let ghost next_due = choose|next: Date|
            #![trigger months_later(regular_flows.last().due_date, m, next)]
            months_later(regular_flows.last().due_date, m, next) && next@ > penultimate;
        let mut bond_cash_flows = bond_cash_flows;
        match Self::first_cash_flow(
            issue_date,
            first_coupon_date,
            months,
            regular_coupon_payment,
            &mut bond_cash_flows,
        ) {
            Some(()) => {},
            None => return None,
        }
        let final_cash_flow = match Self::final_cash_flow(
            penultimate_coupon_date,
            maturity_date,
            face_value,
            months,
            regular_coupon_payment,
        ) {
            Some(f) => f,
            None => return None,
        };
        bond_cash_flows.push(final_cash_flow);
        proof {
            let fl = bond_cash_flows@;
            let k = fl.len() - 1;
            assert(fl[k - 1].due_date == regular_flows.last().due_date);
            assert(months_later(fl[k - 1].due_date, m, next_due));
            assert forall|i: int| 0 <= i < k - 1 implies months_later(
                #[trigger] fl[i].due_date,
                m,
                fl[i + 1].due_date,
            ) by {
                assert(fl[i].due_date == regular_flows[i].due_date);
                assert(fl[i + 1].due_date == regular_flows[i + 1].due_date);
            }
            assert forall|i: int| 0 <= i < k implies (#[trigger] fl[i].due_date)@ <= penultimate
                && weekend_rolled(fl[i].due_date, fl[i].payment_date) by {
                assert(fl[i].due_date == regular_flows[i].due_date);
            }
            let regular = regular_coupon(coupon_rate, face_value, coupon_frequency);
            let (prior, second_prior) = choose|prior: Date, second_prior: Date|
                #![trigger first_coupon(issue_date, first_coupon_date, prior, second_prior, regular)]
                months_later(first_coupon_date, -m, prior) && (prior@ > issue_date@ ==> months_later(
                    prior,
                    -m,
                    second_prior,
                )) && fl[0].payment_amount == first_coupon(
                    issue_date,
                    first_coupon_date,
                    prior,
                    second_prior,
                    regular,
                );
            let (regular_end, next_end) = choose|regular_end: Date, next_end: Date|
                #![trigger final_coupon(penultimate_coupon_date, maturity_date, regular_end, next_end, regular)]
                months_later(penultimate_coupon_date, m, regular_end) && (maturity_date@
                    > regular_end@ ==> months_later(regular_end, m, next_end))
                    && fl[k].payment_amount == face_value.add_spec(
                    final_coupon(penultimate_coupon_date, maturity_date, regular_end, next_end, regular),
                );
            assert(months_later(first_coupon_date, -m, prior) && (prior@ > issue_date@
                ==> months_later(prior, -m, second_prior)) && fl[0].payment_amount == first_coupon(
                issue_date,
                first_coupon_date,
                prior,
                second_prior,
                regular,
            ));
            assert(months_later(penultimate_coupon_date, m, regular_end) && (maturity_date@
                > regular_end@ ==> months_later(regular_end, m, next_end)) && fl[k].payment_amount
                == face_value.add_spec(
                final_coupon(penultimate_coupon_date, maturity_date, regular_end, next_end, regular),
            ));
        }
        Some(Bond { bond_id: bond_id.to_owned(), bond_cash_flows })
    }

    /// The regular coupons from `first_coupon_date` on, every `months`
    /// months while on or before `penultimate_coupon_date`, each paid on its
    /// due date rolled past weekends; `None` when a date leaves the range.
    fn regular_cash_flows(
        first_coupon_date: Date,
        penultimate_coupon_date: Date,
        months: Months,
        regular_coupon_payment: V,
    ) -> (r: Option<Vec<BondCashFlow<V>>>)
        requires
            1 <= months.0 <= 12,
            first_coupon_date.valid(),
            penultimate_coupon_date.valid(),
            first_coupon_date@ <= penultimate_coupon_date@,
        ensures
            r.is_some() ==> {
                let fl = r.unwrap()@;
                let m = months.0 as int;
                &&& fl.len() > 0
                &&& fl[0].due_date == first_coupon_date
                &&& forall|i: int|
                    0 <= i < fl.len() - 1 ==> months_later(
                        #[trigger] fl[i].due_date,
                        m,
                        fl[i + 1].due_date,
                    )
                &&& forall|i: int|
                    0 <= i < fl.len() ==> (#[trigger] fl[i].due_date)@ <= penultimate_coupon_date@
                        && weekend_rolled(fl[i].due_date, fl[i].payment_date)
                        && fl[i].payment_amount == regular_coupon_payment
                &&& exists|next: Date|
                    #![trigger months_later(fl.last().due_date, m, next)]
                    months_later(fl.last().due_date, m, next) && next@ > penultimate_coupon_date@
            },
            MIN_YEAR + 2 <= first_coupon_date.year_spec() && penultimate_coupon_date.year_spec() + 2
                <= MAX_YEAR ==> r.is_some(),
    {
        let penultimate = penultimate_coupon_date.serial_date();
        let ghost m = months.0 as int;
        let ghost roomy = MIN_YEAR + 2 <= first_coupon_date.year_spec()
            && penultimate_coupon_date.year_spec() + 2 <= MAX_YEAR;
        let mut regular_due_date = first_coupon_date;
        let mut bond_cash_flows: Vec<BondCashFlow<V>> = Vec::new();
        while regular_due_date.serial_date() <= penultimate
            invariant
                months.0 == m,
                1 <= m <= 12,
                roomy == (MIN_YEAR + 2 <= first_coupon_date.year_spec()
                    && penultimate_coupon_date.year_spec() + 2 <= MAX_YEAR),
                first_coupon_date.valid(),
                penultimate_coupon_date.valid(),
                month_index(first_coupon_date.year_spec(), first_coupon_date.month_spec())
                    <= month_index(regular_due_date.year_spec(), regular_due_date.month_spec()),
                penultimate == penultimate_coupon_date@,
                regular_due_date.valid(),
                bond_cash_flows@.len() == 0 ==> regular_due_date == first_coupon_date,
                bond_cash_flows@.len() > 0 ==> bond_cash_flows@[0].due_date == first_coupon_date
                    && months_later(
                    bond_cash_flows@.last().due_date,
                    m,
                    regular_due_date,
                ),
                forall|i: int|
                    0 <= i < bond_cash_flows@.len() - 1 ==> months_later(
                        #[trigger] bond_cash_flows@[i].due_date,
                        m,
                        bond_cash_flows@[i + 1].due_date,
                    ),
                forall|i: int|
                    0 <= i < bond_cash_flows@.len() ==> (#[trigger] bond_cash_flows@[i].due_date)@
                        <= penultimate && weekend_rolled(
                        bond_cash_flows@[i].due_date,
                        bond_cash_flows@[i].payment_date,
                    ) && bond_cash_flows@[i].payment_amount == regular_coupon_payment,
            decreases 100_000_000 - regular_due_date@,
        {
            proof {
                if roomy {
                    lemma_before_last_year(
                        penultimate_coupon_date.year_spec(),
                        penultimate_coupon_date.month_spec(),
                        penultimate_coupon_date.day_spec(),
                    );
                    if month_index(penultimate_coupon_date.year_spec(), penultimate_coupon_date.month_spec())
                        < month_index(regular_due_date.year_spec(), regular_due_date.month_spec()) {
                        lemma_later_month_later_day(
                            penultimate_coupon_date.year_spec(),
                            penultimate_coupon_date.month_spec(),
                            penultimate_coupon_date.day_spec(),
                            regular_due_date.year_spec(),
                            regular_due_date.month_spec(),
                            regular_due_date.day_spec(),
                        );
                    }
                }
            }
            let payment_date = match regular_due_date.weekend_roll() {
                Some(d) => d,
                None => return None,
            };
            bond_cash_flows.push(
                BondCashFlow {
                    due_date: regular_due_date,
                    payment_date,
                    payment_amount: regular_coupon_payment,
                },
            );
            regular_due_date = match regular_due_date.checked_add_months(months) {
                Some(d) => d,
                None => return None,
            };
        }
        assert(bond_cash_flows@.len() > 0);
        assert(months_later(bond_cash_flows@.last().due_date, m, regular_due_date)
            && regular_due_date@ > penultimate_coupon_date@);
        assert(exists|next: Date|
            #![trigger months_later(bond_cash_flows@.last().due_date, m, next)]
            months_later(bond_cash_flows@.last().due_date, m, next) && next@
                > penultimate_coupon_date@);
        Some(bond_cash_flows)
    }

    fn first_cash_flow(
        issue_date: Date,
        first_coupon_date: Date,
        months_in_regular_coupon_period: Months,
        regular_coupon_payment: V,
        bond_cash_flows: &mut Vec<BondCashFlow<V>>,
    ) -> (r: Option<()>)
        requires
            old(bond_cash_flows)@.len() > 0,
            old(bond_cash_flows)@[0].payment_amount == regular_coupon_payment,
            first_coupon_date.valid(),
            months_in_regular_coupon_period.0 <= 12,
        ensures
            MIN_YEAR + 2 <= first_coupon_date.year_spec() ==> r.is_some(),
            final(bond_cash_flows)@.len() == old(bond_cash_flows)@.len(),
            forall|i: int|
                0 <= i < final(bond_cash_flows)@.len() ==> (#[trigger] final(bond_cash_flows)@[i]).due_date
                    == old(bond_cash_flows)@[i].due_date && final(bond_cash_flows)@[i].payment_date
                    == old(bond_cash_flows)@[i].payment_date,
            forall|i: int|
                1 <= i < final(bond_cash_flows)@.len() ==> (#[trigger] final(bond_cash_flows)@[i])
                    == old(bond_cash_flows)@[i],
            r.is_some() ==> exists|prior: Date, second_prior: Date|
                #![trigger first_coupon(issue_date, first_coupon_date, prior, second_prior, regular_coupon_payment)]
                months_later(
                    first_coupon_date,
                    -(months_in_regular_coupon_period.0 as int),
                    prior,
                ) && (prior@ > issue_date@ ==> months_later(
                    prior,
                    -(months_in_regular_coupon_period.0 as int),
                    second_prior,
                )) && final(bond_cash_flows)@[0].payment_amount == first_coupon(
                    issue_date,
                    first_coupon_date,
                    prior,
                    second_prior,
                    regular_coupon_payment,
                ),
    {
        let first_prior = match first_coupon_date.checked_sub_months(
            months_in_regular_coupon_period,
        ) {
            Some(d) => d,
            None => return None,
        };
        let p = first_prior.serial_date();
        let s = issue_date.serial_date();
        if p < s {
            let coupon_fraction = V::from_i32(first_coupon_date.sub(issue_date)).over(
                V::from_i32(first_coupon_date.sub(first_prior)),
            );
            let mut flow = bond_cash_flows[0];
            flow.payment_amount = flow.payment_amount.times(coupon_fraction);
            bond_cash_flows.set(0, flow);
            assert(final(bond_cash_flows)@[0].payment_amount == first_coupon(
                issue_date,
                first_coupon_date,
                first_prior,
                first_prior,
                regular_coupon_payment,
            ));
        } else if p > s {
            let second_prior = match first_prior.checked_sub_months(
                months_in_regular_coupon_period,
            ) {
                Some(d) => d,
                None => return None,
            };
            let coupon_fraction = V::from_i32(first_prior.sub(issue_date)).over(
                V::from_i32(first_prior.sub(second_prior)),
            );
            let mut flow = bond_cash_flows[0];
            flow.payment_amount = flow.payment_amount.plus(
                coupon_fraction.times(regular_coupon_payment),
            );
            bond_cash_flows.set(0, flow);
            assert(final(bond_cash_flows)@[0].payment_amount == first_coupon(
                issue_date,
                first_coupon_date,
                first_prior,
                second_prior,
                regular_coupon_payment,
            ));
        } else {
            assert(final(bond_cash_flows)@[0].payment_amount == first_coupon(
                issue_date,
                first_coupon_date,
                first_prior,
                first_prior,
                regular_coupon_payment,
            ));
        }
        Some(())
    }

    fn final_cash_flow(
        penultimate_coupon_date: Date,
        maturity_date: Date,
        face_value: V,
        months_in_regular_coupon_period: Months,
        regular_coupon_payment: V,
    ) -> (r: Option<BondCashFlow<V>>)
        requires
            penultimate_coupon_date.valid(),
            months_in_regular_coupon_period.0 <= 12,
        ensures
            penultimate_coupon_date.year_spec() + 2 <= MAX_YEAR ==> r.is_some(),
            r.is_some() ==> r.unwrap().due_date == maturity_date && r.unwrap().payment_date
                == maturity_date && exists|regular_end: Date, next_end: Date|
                #![trigger final_coupon(penultimate_coupon_date, maturity_date, regular_end, next_end, regular_coupon_payment)]
                months_later(
                    penultimate_coupon_date,
                    months_in_regular_coupon_period.0 as int,
                    regular_end,
                ) && (maturity_date@ > regular_end@ ==> months_later(
                    regular_end,
                    months_in_regular_coupon_period.0 as int,
                    next_end,
                )) && r.unwrap().payment_amount == face_value.add_spec(
                    final_coupon(
                        penultimate_coupon_date,
                        maturity_date,
                        regular_end,
                        next_end,
                        regular_coupon_payment,
                    ),
                ),
    {
        let mut final_coupon_payment = regular_coupon_payment;
        let maturity_regular_date = match penultimate_coupon_date.checked_add_months(
            months_in_regular_coupon_period,
        ) {
            Some(d) => d,
            None => return None,
        };
        let m = maturity_date.serial_date();
        let e = maturity_regular_date.serial_date();
        let ghost mut next_end = maturity_regular_date;
        if m < e {
            let coupon_fraction = V::from_i32(maturity_date.sub(penultimate_coupon_date)).over(
                V::from_i32(maturity_regular_date.sub(penultimate_coupon_date)),
            );
            final_coupon_payment = final_coupon_payment.times(coupon_fraction);
            assert(final_coupon_payment == final_coupon(
                penultimate_coupon_date,
                maturity_date,
                maturity_regular_date,
                maturity_regular_date,
                regular_coupon_payment,
            ));
        } else if m > e {
            let next_regular_date = match maturity_regular_date.checked_add_months(
                months_in_regular_coupon_period,
            ) {
                Some(d) => d,
                None => return None,
            };
            let extra_coupon_fraction = V::from_i32(maturity_date.sub(maturity_regular_date)).over(
                V::from_i32(next_regular_date.sub(maturity_regular_date)),
            );
            final_coupon_payment = final_coupon_payment.plus(
                extra_coupon_fraction.times(regular_coupon_payment),
            );
            proof {
                next_end = next_regular_date;
            }
            assert(final_coupon_payment == final_coupon(
                penultimate_coupon_date,
                maturity_date,
                maturity_regular_date,
                next_regular_date,
                regular_coupon_payment,
            ));
        } else {
            assert(final_coupon_payment == final_coupon(
                penultimate_coupon_date,
                maturity_date,
                maturity_regular_date,
                maturity_regular_date,
                regular_coupon_payment,
            ));
        }
        let flow = BondCashFlow {
            due_date: maturity_date,
            payment_date: maturity_date,
            payment_amount: face_value.plus(final_coupon_payment),
        };
        assert(months_later(
            penultimate_coupon_date,
            months_in_regular_coupon_period.0 as int,
            maturity_regular_date,
        ) && (maturity_date@ > maturity_regular_date@ ==> months_later(
            maturity_regular_date,
            months_in_regular_coupon_period.0 as int,
            next_end,
        )) && flow.payment_amount == face_value.add_spec(
            final_coupon(
                penultimate_coupon_date,
                maturity_date,
                maturity_regular_date,
                next_end,
                regular_coupon_payment,
            ),
        ));
        Some(flow)
    }

    /// The present value at `bond_settle_date` of the cash flows due after
    /// it, each discounted from its payment date by `yield_curve`; the first
    /// failing discount factor is returned as the error.
    pub fn discounted_value<D: DayCount, I: Interpolator<V>>(
        &self,
        bond_settle_date: Date,
        yield_curve: &YieldCurve<D, V, I>,
    ) -> (r: QLabResult<V, V>)
        ensures
            r is Ok == present_value(
                *yield_curve,
                bond_settle_date,
                self.cash_flows(),
                self.cash_flows().len(),
            ) is Some,
            r is Ok ==> r->Ok_0 == present_value(
                *yield_curve,
                bond_settle_date,
                self.cash_flows(),
                self.cash_flows().len(),
            )->Some_0,
    {
        let ghost flows = self.cash_flows();
        let mut pv = V::from_i32(0);
        let mut i: usize = 0;
        let settle = bond_settle_date.serial_date();
        while i < self.bond_cash_flows.len()
            invariant
                flows == self.cash_flows(),
                flows.len() == self.bond_cash_flows@.len(),
                i <= flows.len(),
                settle == bond_settle_date@,
                present_value(*yield_curve, bond_settle_date, flows, i as nat) == Some(pv),
            decreases flows.len() - i,
        {
            let flow = self.bond_cash_flows[i];
            if settle < flow.due_date.serial_date() {
                let df = match yield_curve.discount_factor(bond_settle_date, flow.payment_date) {
                    Ok(df) => df,
                    Err(e) => {
                        proof {
                            lemma_present_value_stops(
                                *yield_curve,
                                bond_settle_date,
                                flows,
                                (i + 1) as nat,
                                flows.len(),
                            );
                        }
                        return Err(e);
                    },
                };
                pv = pv.plus(df.times(flow.payment_amount));
            }
            i += 1;
        }
        Ok(pv)
    }

    pub fn bond_id(&self) -> (r: &str)
        ensures
            r@ == self.id(),
    {
        self.bond_id.as_str()
    }
}

/// Once the present value of a prefix of the cash flows fails, so does that
/// of every longer prefix.
proof fn lemma_present_value_stops<D: DayCount, V: Value, I: Interpolator<V>>(
    curve: YieldCurve<D, V, I>,
    settle: Date,
    flows: Seq<BondCashFlow<V>>,
    n: nat,
    m: nat,
)
    requires
        present_value(curve, settle, flows, n) is None,
        n <= m,
    ensures
        present_value(curve, settle, flows, m) is None,
    decreases m - n,
{
    if n < m {
        lemma_present_value_stops(curve, settle, flows, n, (m - 1) as nat);
    }
}

} // verus!
