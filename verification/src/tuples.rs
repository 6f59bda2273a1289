//! `GcTarget` for tuples: a tuple reports what its fields report, first to
//! last.

use vstd::prelude::*;
use crate::target::GcTarget;
use crate::token::{GcDropToken, GcTraceToken};

verus! {

impl GcTarget for () {
    open spec fn objects(&self) -> Seq<usize> {
        Seq::empty()
    }

    open spec fn roots(&self) -> Seq<usize> {
        Seq::empty()
    }

    fn trace(&self, token: &mut GcTraceToken) {
        let _ = token;
    }

    fn finalize(&self, token: &mut GcDropToken) {
        let _ = token;
    }
}

impl<T0: GcTarget> GcTarget for (T0,) {
    open spec fn objects(&self) -> Seq<usize> {
        self.0.objects()
    }

    open spec fn roots(&self) -> Seq<usize> {
        self.0.roots()
    }

    fn trace(&self, token: &mut GcTraceToken) {
        self.0.trace(token);
    }

    fn finalize(&self, token: &mut GcDropToken) {
        self.0.finalize(token);
    }
}

impl<T0: GcTarget, T1: GcTarget> GcTarget for (T0, T1) {
    open spec fn objects(&self) -> Seq<usize> {
        self.0.objects() + self.1.objects()
    }

    open spec fn roots(&self) -> Seq<usize> {
        self.0.roots() + self.1.roots()
    }

    fn trace(&self, token: &mut GcTraceToken) {
        proof {
            old(token)@.lemma_accept_concat(self.0.objects(), self.1.objects());
        }
        self.0.trace(token);
        self.1.trace(token);
    }

    fn finalize(&self, token: &mut GcDropToken) {
        self.0.finalize(token);
        self.1.finalize(token);
    }
}

impl<T0: GcTarget, T1: GcTarget, T2: GcTarget> GcTarget for (T0, T1, T2) {
    open spec fn objects(&self) -> Seq<usize> {
        self.0.objects() + self.1.objects() + self.2.objects()
    }

    open spec fn roots(&self) -> Seq<usize> {
        self.0.roots() + self.1.roots() + self.2.roots()
    }

    fn trace(&self, token: &mut GcTraceToken) {
        proof {
            old(token)@.lemma_accept_concat(self.0.objects(), self.1.objects());
            old(token)@.lemma_accept_concat(self.0.objects() + self.1.objects(), self.2.objects());
        }
        self.0.trace(token);
        self.1.trace(token);
        self.2.trace(token);
    }

    fn finalize(&self, token: &mut GcDropToken) {
        self.0.finalize(token);
        self.1.finalize(token);
        self.2.finalize(token);
    }
}

impl<T0: GcTarget, T1: GcTarget, T2: GcTarget, T3: GcTarget> GcTarget for (T0, T1, T2, T3) {
    open spec fn objects(&self) -> Seq<usize> {
        self.0.objects() + self.1.objects() + self.2.objects() + self.3.objects()
    }

    open spec fn roots(&self) -> Seq<usize> {
        self.0.roots() + self.1.roots() + self.2.roots() + self.3.roots()
    }

    fn trace(&self, token: &mut GcTraceToken) {
        proof {
            old(token)@.lemma_accept_concat(self.0.objects(), self.1.objects());
            old(token)@.lemma_accept_concat(self.0.objects() + self.1.objects(), self.2.objects());
            old(token)@.lemma_accept_concat(
                self.0.objects() + self.1.objects() + self.2.objects(),
                self.3.objects(),
            );
        }
        self.0.trace(token);
        self.1.trace(token);
        self.2.trace(token);
        self.3.trace(token);
    }

    fn finalize(&self, token: &mut GcDropToken) {
        self.0.finalize(token);
        self.1.finalize(token);
        self.2.finalize(token);
        self.3.finalize(token);
    }
}

impl<
    T0: GcTarget, T1: GcTarget, T2: GcTarget,
    T3: GcTarget, T4: GcTarget,
> GcTarget for (
    T0, T1, T2, T3, T4,
) {
    open spec fn objects(&self) -> Seq<usize> {
        self.0.objects() + self.1.objects() + self.2.objects() + self.3.objects()
            + self.4.objects()
    }

    open spec fn roots(&self) -> Seq<usize> {
        self.0.roots() + self.1.roots() + self.2.roots() + self.3.roots() + self.4.roots()
    }

    fn trace(&self, token: &mut GcTraceToken) {
        proof {
            old(token)@.lemma_accept_concat(self.0.objects(), self.1.objects());
            old(token)@.lemma_accept_concat(self.0.objects() + self.1.objects(), self.2.objects());
            old(token)@.lemma_accept_concat(
                self.0.objects() + self.1.objects() + self.2.objects(),
                self.3.objects(),
            );
            old(token)@.lemma_accept_concat(
                self.0.objects() + self.1.objects() + self.2.objects() + self.3.objects(),
                self.4.objects(),
            );
        }
        self.0.trace(token);
        self.1.trace(token);
        self.2.trace(token);
        self.3.trace(token);
        self.4.trace(token);
    }

    fn finalize(&self, token: &mut GcDropToken) {
        self.0.finalize(token);
        self.1.finalize(token);
        self.2.finalize(token);
        self.3.finalize(token);
        self.4.finalize(token);
    }
}

impl<
    T0: GcTarget, T1: GcTarget, T2: GcTarget,
    T3: GcTarget, T4: GcTarget, T5: GcTarget,
> GcTarget for (
    T0, T1, T2, T3, T4, T5,
) {
    open spec fn objects(&self) -> Seq<usize> {
        self.0.objects() + self.1.objects() + self.2.objects() + self.3.objects()
            + self.4.objects() + self.5.objects()
    }

    open spec fn roots(&self) -> Seq<usize> {
        self.0.roots() + self.1.roots() + self.2.roots() + self.3.roots() + self.4.roots()
            + self.5.roots()
    }

    fn trace(&self, token: &mut GcTraceToken) {
        proof {
            old(token)@.lemma_accept_concat(self.0.objects(), self.1.objects());
            old(token)@.lemma_accept_concat(self.0.objects() + self.1.objects(), self.2.objects());
            old(token)@.lemma_accept_concat(
                self.0.objects() + self.1.objects() + self.2.objects(),
                self.3.objects(),
            );
            old(token)@.lemma_accept_concat(
                self.0.objects() + self.1.objects() + self.2.objects() + self.3.objects(),
                self.4.objects(),
            );
            old(token)@.lemma_accept_concat(
                self.0.objects() + self.1.objects() + self.2.objects() + self.3.objects()
                    + self.4.objects(),
                self.5.objects(),
            );
        }
        self.0.trace(token);
        self.1.trace(token);
        self.2.trace(token);
        self.3.trace(token);
        self.4.trace(token);
        self.5.trace(token);
    }

    fn finalize(&self, token: &mut GcDropToken) {
        self.0.finalize(token);
        self.1.finalize(token);
        self.2.finalize(token);
        self.3.finalize(token);
        self.4.finalize(token);
        self.5.finalize(token);
    }
}

impl<
    T0: GcTarget, T1: GcTarget, T2: GcTarget, T3: GcTarget,
    T4: GcTarget, T5: GcTarget, T6: GcTarget,
> GcTarget for (
    T0, T1, T2, T3, T4, T5, T6,
) {
    open spec fn objects(&self) -> Seq<usize> {
        self.0.objects() + self.1.objects() + self.2.objects() + self.3.objects()
            + self.4.objects() + self.5.objects() + self.6.objects()
    }

    open spec fn roots(&self) -> Seq<usize> {
        self.0.roots() + self.1.roots() + self.2.roots() + self.3.roots() + self.4.roots()
            + self.5.roots() + self.6.roots()
    }

    fn trace(&self, token: &mut GcTraceToken) {
        proof {
            old(token)@.lemma_accept_concat(self.0.objects(), self.1.objects());
            old(token)@.lemma_accept_concat(self.0.objects() + self.1.objects(), self.2.objects());
            old(token)@.lemma_accept_concat(
                self.0.objects() + self.1.objects() + self.2.objects(),
                self.3.objects(),
            );
            old(token)@.lemma_accept_concat(
                self.0.objects() + self.1.objects() + self.2.objects() + self.3.objects(),
                self.4.objects(),
            );
            old(token)@.lemma_accept_concat(
                self.0.objects() + self.1.objects() + self.2.objects() + self.3.objects()
                    + self.4.objects(),
                self.5.objects(),
            );
            old(token)@.lemma_accept_concat(
                self.0.objects() + self.1.objects() + self.2.objects() + self.3.objects()
                    + self.4.objects() + self.5.objects(),
                self.6.objects(),
            );
        }
        self.0.trace(token);
        self.1.trace(token);
        self.2.trace(token);
        self.3.trace(token);
        self.4.trace(token);
        self.5.trace(token);
        self.6.trace(token);
    }

    fn finalize(&self, token: &mut GcDropToken) {
        self.0.finalize(token);
        self.1.finalize(token);
        self.2.finalize(token);
        self.3.finalize(token);
        self.4.finalize(token);
        self.5.finalize(token);
        self.6.finalize(token);
    }
}

impl<
    T0: GcTarget, T1: GcTarget, T2: GcTarget, T3: GcTarget,
    T4: GcTarget, T5: GcTarget, T6: GcTarget, T7: GcTarget,
> GcTarget for (
    T0, T1, T2, T3, T4, T5, T6, T7,
) {
    open spec fn objects(&self) -> Seq<usize> {
        self.0.objects() + self.1.objects() + self.2.objects() + self.3.objects()
            + self.4.objects() + self.5.objects() + self.6.objects() + self.7.objects()
    }

    open spec fn roots(&self) -> Seq<usize> {
        self.0.roots() + self.1.roots() + self.2.roots() + self.3.roots() + self.4.roots()
            + self.5.roots() + self.6.roots() + self.7.roots()
    }

    fn trace(&self, token: &mut GcTraceToken) {
        proof {
            old(token)@.lemma_accept_concat(self.0.objects(), self.1.objects());
            old(token)@.lemma_accept_concat(self.0.objects() + self.1.objects(), self.2.objects());
            old(token)@.lemma_accept_concat(
                self.0.objects() + self.1.objects() + self.2.objects(),
                self.3.objects(),
            );
            old(token)@.lemma_accept_concat(
                self.0.objects() + self.1.objects() + self.2.objects() + self.3.objects(),
                self.4.objects(),
            );
            old(token)@.lemma_accept_concat(
                self.0.objects() + self.1.objects() + self.2.objects() + self.3.objects()
                    + self.4.objects(),
                self.5.objects(),
            );
            old(token)@.lemma_accept_concat(
                self.0.objects() + self.1.objects() + self.2.objects() + self.3.objects()
                    + self.4.objects() + self.5.objects(),
                self.6.objects(),
            );
            old(token)@.lemma_accept_concat(
                self.0.objects() + self.1.objects() + self.2.objects() + self.3.objects()
                    + self.4.objects() + self.5.objects() + self.6.objects(),
                self.7.objects(),
            );
        }
        self.0.trace(token);
        self.1.trace(token);
        self.2.trace(token);
        self.3.trace(token);
        self.4.trace(token);
        self.5.trace(token);
        self.6.trace(token);
        self.7.trace(token);
    }

    fn finalize(&self, token: &mut GcDropToken) {
        self.0.finalize(token);
        self.1.finalize(token);
        self.2.finalize(token);
        self.3.finalize(token);
        self.4.finalize(token);
        self.5.finalize(token);
        self.6.finalize(token);
        self.7.finalize(token);
    }
}

impl<
    T0: GcTarget, T1: GcTarget, T2: GcTarget, T3: GcTarget, T4: GcTarget,
    T5: GcTarget, T6: GcTarget, T7: GcTarget, T8: GcTarget,
> GcTarget for (
    T0, T1, T2, T3, T4, T5, T6, T7, T8,
) {
    open spec fn objects(&self) -> Seq<usize> {
        self.0.objects() + self.1.objects() + self.2.objects() + self.3.objects()
            + self.4.objects() + self.5.objects() + self.6.objects() + self.7.objects()
            + self.8.objects()
    }

    open spec fn roots(&self) -> Seq<usize> {
        self.0.roots() + self.1.roots() + self.2.roots() + self.3.roots() + self.4.roots()
            + self.5.roots() + self.6.roots() + self.7.roots() + self.8.roots()
    }

    fn trace(&self, token: &mut GcTraceToken) {
        proof {
            old(token)@.lemma_accept_concat(self.0.objects(), self.1.objects());
            old(token)@.lemma_accept_concat(self.0.objects() + self.1.objects(), self.2.objects());
            old(token)@.lemma_accept_concat(
                self.0.objects() + self.1.objects() + self.2.objects(),
                self.3.objects(),
            );
            old(token)@.lemma_accept_concat(
                self.0.objects() + self.1.objects() + self.2.objects() + self.3.objects(),
                self.4.objects(),
            );
            old(token)@.lemma_accept_concat(
                self.0.objects() + self.1.objects() + self.2.objects() + self.3.objects()
                    + self.4.objects(),
                self.5.objects(),
            );
            old(token)@.lemma_accept_concat(
                self.0.objects() + self.1.objects() + self.2.objects() + self.3.objects()
                    + self.4.objects() + self.5.objects(),
                self.6.objects(),
            );
            old(token)@.lemma_accept_concat(
                self.0.objects() + self.1.objects() + self.2.objects() + self.3.objects()
                    + self.4.objects() + self.5.objects() + self.6.objects(),
                self.7.objects(),
            );
            old(token)@.lemma_accept_concat(
                self.0.objects() + self.1.objects() + self.2.objects() + self.3.objects()
                    + self.4.objects() + self.5.objects() + self.6.objects() + self.7.objects(),
                self.8.objects(),
            );
        }
        self.0.trace(token);
        self.1.trace(token);
        self.2.trace(token);
        self.3.trace(token);
        self.4.trace(token);
        self.5.trace(token);
        self.6.trace(token);
        self.7.trace(token);
        self.8.trace(token);
    }

    fn finalize(&self, token: &mut GcDropToken) {
        self.0.finalize(token);
        self.1.finalize(token);
        self.2.finalize(token);
        self.3.finalize(token);
        self.4.finalize(token);
        self.5.finalize(token);
        self.6.finalize(token);
        self.7.finalize(token);
        self.8.finalize(token);
    }
}

impl<
    T0: GcTarget, T1: GcTarget, T2: GcTarget, T3: GcTarget, T4: GcTarget,
    T5: GcTarget, T6: GcTarget, T7: GcTarget, T8: GcTarget, T9: GcTarget,
> GcTarget for (
    T0, T1, T2, T3, T4, T5, T6, T7, T8, T9,
) {
    open spec fn objects(&self) -> Seq<usize> {
        self.0.objects() + self.1.objects() + self.2.objects() + self.3.objects()
            + self.4.objects() + self.5.objects() + self.6.objects() + self.7.objects()
            + self.8.objects() + self.9.objects()
    }

    open spec fn roots(&self) -> Seq<usize> {
        self.0.roots() + self.1.roots() + self.2.roots() + self.3.roots() + self.4.roots()
            + self.5.roots() + self.6.roots() + self.7.roots() + self.8.roots() + self.9.roots()
    }

    fn trace(&self, token: &mut GcTraceToken) {
        proof {
            old(token)@.lemma_accept_concat(self.0.objects(), self.1.objects());
            old(token)@.lemma_accept_concat(self.0.objects() + self.1.objects(), self.2.objects());
            old(token)@.lemma_accept_concat(
                self.0.objects() + self.1.objects() + self.2.objects(),
                self.3.objects(),
            );
            old(token)@.lemma_accept_concat(
                self.0.objects() + self.1.objects() + self.2.objects() + self.3.objects(),
                self.4.objects(),
            );
            old(token)@.lemma_accept_concat(
                self.0.objects() + self.1.objects() + self.2.objects() + self.3.objects()
                    + self.4.objects(),
                self.5.objects(),
            );
            old(token)@.lemma_accept_concat(
                self.0.objects() + self.1.objects() + self.2.objects() + self.3.objects()
                    + self.4.objects() + self.5.objects(),
                self.6.objects(),
            );
            old(token)@.lemma_accept_concat(
                self.0.objects() + self.1.objects() + self.2.objects() + self.3.objects()
                    + self.4.objects() + self.5.objects() + self.6.objects(),
                self.7.objects(),
            );
            old(token)@.lemma_accept_concat(
                self.0.objects() + self.1.objects() + self.2.objects() + self.3.objects()
                    + self.4.objects() + self.5.objects() + self.6.objects() + self.7.objects(),
                self.8.objects(),
            );
            old(token)@.lemma_accept_concat(
                self.0.objects() + self.1.objects() + self.2.objects() + self.3.objects()
                    + self.4.objects() + self.5.objects() + self.6.objects() + self.7.objects()
                    + self.8.objects(),
                self.9.objects(),
            );
        }
        self.0.trace(token);
        self.1.trace(token);
        self.2.trace(token);
        self.3.trace(token);
        self.4.trace(token);
        self.5.trace(token);
        self.6.trace(token);
        self.7.trace(token);
        self.8.trace(token);
        self.9.trace(token);
    }

    fn finalize(&self, token: &mut GcDropToken) {
        self.0.finalize(token);
        self.1.finalize(token);
        self.2.finalize(token);
        self.3.finalize(token);
        self.4.finalize(token);
        self.5.finalize(token);
        self.6.finalize(token);
        self.7.finalize(token);
        self.8.finalize(token);
        self.9.finalize(token);
    }
}

impl<
    T0: GcTarget, T1: GcTarget, T2: GcTarget, T3: GcTarget, T4: GcTarget, T5: GcTarget,
    T6: GcTarget, T7: GcTarget, T8: GcTarget, T9: GcTarget, T10: GcTarget,
> GcTarget for (
    T0, T1, T2, T3, T4, T5, T6, T7, T8, T9, T10,
) {
    open spec fn objects(&self) -> Seq<usize> {
        self.0.objects() + self.1.objects() + self.2.objects() + self.3.objects()
            + self.4.objects() + self.5.objects() + self.6.objects() + self.7.objects()
            + self.8.objects() + self.9.objects() + self.10.objects()
    }

    open spec fn roots(&self) -> Seq<usize> {
        self.0.roots() + self.1.roots() + self.2.roots() + self.3.roots() + self.4.roots()
            + self.5.roots() + self.6.roots() + self.7.roots() + self.8.roots() + self.9.roots()
            + self.10.roots()
    }

    fn trace(&self, token: &mut GcTraceToken) {
        proof {
            old(token)@.lemma_accept_concat(self.0.objects(), self.1.objects());
            old(token)@.lemma_accept_concat(self.0.objects() + self.1.objects(), self.2.objects());
            old(token)@.lemma_accept_concat(
                self.0.objects() + self.1.objects() + self.2.objects(),
                self.3.objects(),
            );
            old(token)@.lemma_accept_concat(
                self.0.objects() + self.1.objects() + self.2.objects() + self.3.objects(),
                self.4.objects(),
            );
            old(token)@.lemma_accept_concat(
                self.0.objects() + self.1.objects() + self.2.objects() + self.3.objects()
                    + self.4.objects(),
                self.5.objects(),
            );
            old(token)@.lemma_accept_concat(
                self.0.objects() + self.1.objects() + self.2.objects() + self.3.objects()
                    + self.4.objects() + self.5.objects(),
                self.6.objects(),
            );
            old(token)@.lemma_accept_concat(
                self.0.objects() + self.1.objects() + self.2.objects() + self.3.objects()
                    + self.4.objects() + self.5.objects() + self.6.objects(),
                self.7.objects(),
            );
            old(token)@.lemma_accept_concat(
                self.0.objects() + self.1.objects() + self.2.objects() + self.3.objects()
                    + self.4.objects() + self.5.objects() + self.6.objects() + self.7.objects(),
                self.8.objects(),
            );
            old(token)@.lemma_accept_concat(
                self.0.objects() + self.1.objects() + self.2.objects() + self.3.objects()
                    + self.4.objects() + self.5.objects() + self.6.objects() + self.7.objects()
                    + self.8.objects(),
                self.9.objects(),
            );
            old(token)@.lemma_accept_concat(
                self.0.objects() + self.1.objects() + self.2.objects() + self.3.objects()
                    + self.4.objects() + self.5.objects() + self.6.objects() + self.7.objects()
                    + self.8.objects() + self.9.objects(),
                self.10.objects(),
            );
        }
        self.0.trace(token);
        self.1.trace(token);
        self.2.trace(token);
        self.3.trace(token);
        self.4.trace(token);
        self.5.trace(token);
        self.6.trace(token);
        self.7.trace(token);
        self.8.trace(token);
        self.9.trace(token);
        self.10.trace(token);
    }

    fn finalize(&self, token: &mut GcDropToken) {
        self.0.finalize(token);
        self.1.finalize(token);
        self.2.finalize(token);
        self.3.finalize(token);
        self.4.finalize(token);
        self.5.finalize(token);
        self.6.finalize(token);
        self.7.finalize(token);
        self.8.finalize(token);
        self.9.finalize(token);
        self.10.finalize(token);
    }
}

impl<
    T0: GcTarget, T1: GcTarget, T2: GcTarget, T3: GcTarget, T4: GcTarget, T5: GcTarget,
    T6: GcTarget, T7: GcTarget, T8: GcTarget, T9: GcTarget, T10: GcTarget, T11: GcTarget,
> GcTarget for (
    T0, T1, T2, T3, T4, T5, T6, T7, T8, T9, T10, T11,
) {
    open spec fn objects(&self) -> Seq<usize> {
        self.0.objects() + self.1.objects() + self.2.objects() + self.3.objects()
            + self.4.objects() + self.5.objects() + self.6.objects() + self.7.objects()
            + self.8.objects() + self.9.objects() + self.10.objects() + self.11.objects()
    }

    open spec fn roots(&self) -> Seq<usize> {
        self.0.roots() + self.1.roots() + self.2.roots() + self.3.roots() + self.4.roots()
            + self.5.roots() + self.6.roots() + self.7.roots() + self.8.roots() + self.9.roots()
            + self.10.roots() + self.11.roots()
    }

    fn trace(&self, token: &mut GcTraceToken) {
        proof {
            old(token)@.lemma_accept_concat(self.0.objects(), self.1.objects());
            old(token)@.lemma_accept_concat(self.0.objects() + self.1.objects(), self.2.objects());
            old(token)@.lemma_accept_concat(
                self.0.objects() + self.1.objects() + self.2.objects(),
                self.3.objects(),
            );
            old(token)@.lemma_accept_concat(
                self.0.objects() + self.1.objects() + self.2.objects() + self.3.objects(),
                self.4.objects(),
            );
            old(token)@.lemma_accept_concat(
                self.0.objects() + self.1.objects() + self.2.objects() + self.3.objects()
                    + self.4.objects(),
                self.5.objects(),
            );
            old(token)@.lemma_accept_concat(
                self.0.objects() + self.1.objects() + self.2.objects() + self.3.objects()
                    + self.4.objects() + self.5.objects(),
                self.6.objects(),
            );
            old(token)@.lemma_accept_concat(
                self.0.objects() + self.1.objects() + self.2.objects() + self.3.objects()
                    + self.4.objects() + self.5.objects() + self.6.objects(),
                self.7.objects(),
            );
            old(token)@.lemma_accept_concat(
                self.0.objects() + self.1.objects() + self.2.objects() + self.3.objects()
                    + self.4.objects() + self.5.objects() + self.6.objects() + self.7.objects(),
                self.8.objects(),
            );
            old(token)@.lemma_accept_concat(
                self.0.objects() + self.1.objects() + self.2.objects() + self.3.objects()
                    + self.4.objects() + self.5.objects() + self.6.objects() + self.7.objects()
                    + self.8.objects(),
                self.9.objects(),
            );
            old(token)@.lemma_accept_concat(
                self.0.objects() + self.1.objects() + self.2.objects() + self.3.objects()
                    + self.4.objects() + self.5.objects() + self.6.objects() + self.7.objects()
                    + self.8.objects() + self.9.objects(),
                self.10.objects(),
            );
            old(token)@.lemma_accept_concat(
                self.0.objects() + self.1.objects() + self.2.objects() + self.3.objects()
                    + self.4.objects() + self.5.objects() + self.6.objects() + self.7.objects()
                    + self.8.objects() + self.9.objects() + self.10.objects(),
                self.11.objects(),
            );
        }
        self.0.trace(token);
        self.1.trace(token);
        self.2.trace(token);
        self.3.trace(token);
        self.4.trace(token);
        self.5.trace(token);
        self.6.trace(token);
        self.7.trace(token);
        self.8.trace(token);
        self.9.trace(token);
        self.10.trace(token);
        self.11.trace(token);
    }

    fn finalize(&self, token: &mut GcDropToken) {
        self.0.finalize(token);
        self.1.finalize(token);
        self.2.finalize(token);
        self.3.finalize(token);
        self.4.finalize(token);
        self.5.finalize(token);
        self.6.finalize(token);
        self.7.finalize(token);
        self.8.finalize(token);
        self.9.finalize(token);
        self.10.finalize(token);
        self.11.finalize(token);
    }
}

impl<
    T0: GcTarget, T1: GcTarget, T2: GcTarget, T3: GcTarget, T4: GcTarget,
    T5: GcTarget, T6: GcTarget, T7: GcTarget, T8: GcTarget, T9: GcTarget,
    T10: GcTarget, T11: GcTarget, T12: GcTarget,
> GcTarget for (
    T0, T1, T2, T3, T4, T5, T6, T7, T8, T9, T10, T11, T12,
) {
    open spec fn objects(&self) -> Seq<usize> {
        self.0.objects() + self.1.objects() + self.2.objects() + self.3.objects()
            + self.4.objects() + self.5.objects() + self.6.objects() + self.7.objects()
            + self.8.objects() + self.9.objects() + self.10.objects() + self.11.objects()
            + self.12.objects()
    }

    open spec fn roots(&self) -> Seq<usize> {
        self.0.roots() + self.1.roots() + self.2.roots() + self.3.roots() + self.4.roots()
            + self.5.roots() + self.6.roots() + self.7.roots() + self.8.roots() + self.9.roots()
            + self.10.roots() + self.11.roots() + self.12.roots()
    }

    fn trace(&self, token: &mut GcTraceToken) {
        proof {
            old(token)@.lemma_accept_concat(self.0.objects(), self.1.objects());
            old(token)@.lemma_accept_concat(self.0.objects() + self.1.objects(), self.2.objects());
            old(token)@.lemma_accept_concat(
                self.0.objects() + self.1.objects() + self.2.objects(),
                self.3.objects(),
            );
            old(token)@.lemma_accept_concat(
                self.0.objects() + self.1.objects() + self.2.objects() + self.3.objects(),
                self.4.objects(),
            );
            old(token)@.lemma_accept_concat(
                self.0.objects() + self.1.objects() + self.2.objects() + self.3.objects()
                    + self.4.objects(),
                self.5.objects(),
            );
            old(token)@.lemma_accept_concat(
                self.0.objects() + self.1.objects() + self.2.objects() + self.3.objects()
                    + self.4.objects() + self.5.objects(),
                self.6.objects(),
            );
            old(token)@.lemma_accept_concat(
                self.0.objects() + self.1.objects() + self.2.objects() + self.3.objects()
                    + self.4.objects() + self.5.objects() + self.6.objects(),
                self.7.objects(),
            );
            old(token)@.lemma_accept_concat(
                self.0.objects() + self.1.objects() + self.2.objects() + self.3.objects()
                    + self.4.objects() + self.5.objects() + self.6.objects() + self.7.objects(),
                self.8.objects(),
            );
            old(token)@.lemma_accept_concat(
                self.0.objects() + self.1.objects() + self.2.objects() + self.3.objects()
                    + self.4.objects() + self.5.objects() + self.6.objects() + self.7.objects()
                    + self.8.objects(),
                self.9.objects(),
            );
            old(token)@.lemma_accept_concat(
                self.0.objects() + self.1.objects() + self.2.objects() + self.3.objects()
                    + self.4.objects() + self.5.objects() + self.6.objects() + self.7.objects()
                    + self.8.objects() + self.9.objects(),
                self.10.objects(),
            );
            old(token)@.lemma_accept_concat(
                self.0.objects() + self.1.objects() + self.2.objects() + self.3.objects()
                    + self.4.objects() + self.5.objects() + self.6.objects() + self.7.objects()
                    + self.8.objects() + self.9.objects() + self.10.objects(),
                self.11.objects(),
            );
            old(token)@.lemma_accept_concat(
                self.0.objects() + self.1.objects() + self.2.objects() + self.3.objects()
                    + self.4.objects() + self.5.objects() + self.6.objects() + self.7.objects()
                    + self.8.objects() + self.9.objects() + self.10.objects()
                    + self.11.objects(),
                self.12.objects(),
            );
        }
        self.0.trace(token);
        self.1.trace(token);
        self.2.trace(token);
        self.3.trace(token);
        self.4.trace(token);
        self.5.trace(token);
        self.6.trace(token);
        self.7.trace(token);
        self.8.trace(token);
        self.9.trace(token);
        self.10.trace(token);
        self.11.trace(token);
        self.12.trace(token);
    }

    fn finalize(&self, token: &mut GcDropToken) {
        self.0.finalize(token);
        self.1.finalize(token);
        self.2.finalize(token);
        self.3.finalize(token);
        self.4.finalize(token);
        self.5.finalize(token);
        self.6.finalize(token);
        self.7.finalize(token);
        self.8.finalize(token);
        self.9.finalize(token);
        self.10.finalize(token);
        self.11.finalize(token);
        self.12.finalize(token);
    }
}

impl<
    T0: GcTarget, T1: GcTarget, T2: GcTarget, T3: GcTarget, T4: GcTarget,
    T5: GcTarget, T6: GcTarget, T7: GcTarget, T8: GcTarget, T9: GcTarget,
    T10: GcTarget, T11: GcTarget, T12: GcTarget, T13: GcTarget,
> GcTarget for (
    T0, T1, T2, T3, T4, T5, T6, T7, T8, T9, T10, T11, T12, T13,
) {
    open spec fn objects(&self) -> Seq<usize> {
        self.0.objects() + self.1.objects() + self.2.objects() + self.3.objects()
            + self.4.objects() + self.5.objects() + self.6.objects() + self.7.objects()
            + self.8.objects() + self.9.objects() + self.10.objects() + self.11.objects()
            + self.12.objects() + self.13.objects()
    }

    open spec fn roots(&self) -> Seq<usize> {
        self.0.roots() + self.1.roots() + self.2.roots() + self.3.roots() + self.4.roots()
            + self.5.roots() + self.6.roots() + self.7.roots() + self.8.roots() + self.9.roots()
            + self.10.roots() + self.11.roots() + self.12.roots() + self.13.roots()
    }

    fn trace(&self, token: &mut GcTraceToken) {
        proof {
            old(token)@.lemma_accept_concat(self.0.objects(), self.1.objects());
            old(token)@.lemma_accept_concat(self.0.objects() + self.1.objects(), self.2.objects());
            old(token)@.lemma_accept_concat(
                self.0.objects() + self.1.objects() + self.2.objects(),
                self.3.objects(),
            );
            old(token)@.lemma_accept_concat(
                self.0.objects() + self.1.objects() + self.2.objects() + self.3.objects(),
                self.4.objects(),
            );
            old(token)@.lemma_accept_concat(
                self.0.objects() + self.1.objects() + self.2.objects() + self.3.objects()
                    + self.4.objects(),
                self.5.objects(),
            );
            old(token)@.lemma_accept_concat(
                self.0.objects() + self.1.objects() + self.2.objects() + self.3.objects()
                    + self.4.objects() + self.5.objects(),
                self.6.objects(),
            );
            old(token)@.lemma_accept_concat(
                self.0.objects() + self.1.objects() + self.2.objects() + self.3.objects()
                    + self.4.objects() + self.5.objects() + self.6.objects(),
                self.7.objects(),
            );
            old(token)@.lemma_accept_concat(
                self.0.objects() + self.1.objects() + self.2.objects() + self.3.objects()
                    + self.4.objects() + self.5.objects() + self.6.objects() + self.7.objects(),
                self.8.objects(),
            );
            old(token)@.lemma_accept_concat(
                self.0.objects() + self.1.objects() + self.2.objects() + self.3.objects()
                    + self.4.objects() + self.5.objects() + self.6.objects() + self.7.objects()
                    + self.8.objects(),
                self.9.objects(),
            );
            old(token)@.lemma_accept_concat(
                self.0.objects() + self.1.objects() + self.2.objects() + self.3.objects()
                    + self.4.objects() + self.5.objects() + self.6.objects() + self.7.objects()
                    + self.8.objects() + self.9.objects(),
                self.10.objects(),
            );
            old(token)@.lemma_accept_concat(
                self.0.objects() + self.1.objects() + self.2.objects() + self.3.objects()
                    + self.4.objects() + self.5.objects() + self.6.objects() + self.7.objects()
                    + self.8.objects() + self.9.objects() + self.10.objects(),
                self.11.objects(),
            );
            old(token)@.lemma_accept_concat(
                self.0.objects() + self.1.objects() + self.2.objects() + self.3.objects()
                    + self.4.objects() + self.5.objects() + self.6.objects() + self.7.objects()
                    + self.8.objects() + self.9.objects() + self.10.objects()
                    + self.11.objects(),
                self.12.objects(),
            );
            old(token)@.lemma_accept_concat(
                self.0.objects() + self.1.objects() + self.2.objects() + self.3.objects()
                    + self.4.objects() + self.5.objects() + self.6.objects() + self.7.objects()
                    + self.8.objects() + self.9.objects() + self.10.objects()
                    + self.11.objects() + self.12.objects(),
                self.13.objects(),
            );
        }
        self.0.trace(token);
        self.1.trace(token);
        self.2.trace(token);
        self.3.trace(token);
        self.4.trace(token);
        self.5.trace(token);
        self.6.trace(token);
        self.7.trace(token);
        self.8.trace(token);
        self.9.trace(token);
        self.10.trace(token);
        self.11.trace(token);
        self.12.trace(token);
        self.13.trace(token);
    }

    fn finalize(&self, token: &mut GcDropToken) {
        self.0.finalize(token);
        self.1.finalize(token);
        self.2.finalize(token);
        self.3.finalize(token);
        self.4.finalize(token);
        self.5.finalize(token);
        self.6.finalize(token);
        self.7.finalize(token);
        self.8.finalize(token);
        self.9.finalize(token);
        self.10.finalize(token);
        self.11.finalize(token);
        self.12.finalize(token);
        self.13.finalize(token);
    }
}

impl<
    T0: GcTarget, T1: GcTarget, T2: GcTarget, T3: GcTarget, T4: GcTarget,
    T5: GcTarget, T6: GcTarget, T7: GcTarget, T8: GcTarget, T9: GcTarget,
    T10: GcTarget, T11: GcTarget, T12: GcTarget, T13: GcTarget, T14: GcTarget,
> GcTarget for (
    T0, T1, T2, T3, T4, T5, T6, T7, T8, T9, T10, T11, T12, T13, T14,
) {
    open spec fn objects(&self) -> Seq<usize> {
        self.0.objects() + self.1.objects() + self.2.objects() + self.3.objects()
            + self.4.objects() + self.5.objects() + self.6.objects() + self.7.objects()
            + self.8.objects() + self.9.objects() + self.10.objects() + self.11.objects()
            + self.12.objects() + self.13.objects() + self.14.objects()
    }

    open spec fn roots(&self) -> Seq<usize> {
        self.0.roots() + self.1.roots() + self.2.roots() + self.3.roots() + self.4.roots()
            + self.5.roots() + self.6.roots() + self.7.roots() + self.8.roots() + self.9.roots()
            + self.10.roots() + self.11.roots() + self.12.roots() + self.13.roots()
            + self.14.roots()
    }

    fn trace(&self, token: &mut GcTraceToken) {
        proof {
            old(token)@.lemma_accept_concat(self.0.objects(), self.1.objects());
            old(token)@.lemma_accept_concat(self.0.objects() + self.1.objects(), self.2.objects());
            old(token)@.lemma_accept_concat(
                self.0.objects() + self.1.objects() + self.2.objects(),
                self.3.objects(),
            );
            old(token)@.lemma_accept_concat(
                self.0.objects() + self.1.objects() + self.2.objects() + self.3.objects(),
                self.4.objects(),
            );
            old(token)@.lemma_accept_concat(
                self.0.objects() + self.1.objects() + self.2.objects() + self.3.objects()
                    + self.4.objects(),
                self.5.objects(),
            );
            old(token)@.lemma_accept_concat(
                self.0.objects() + self.1.objects() + self.2.objects() + self.3.objects()
                    + self.4.objects() + self.5.objects(),
                self.6.objects(),
            );
            old(token)@.lemma_accept_concat(
                self.0.objects() + self.1.objects() + self.2.objects() + self.3.objects()
                    + self.4.objects() + self.5.objects() + self.6.objects(),
                self.7.objects(),
            );
            old(token)@.lemma_accept_concat(
                self.0.objects() + self.1.objects() + self.2.objects() + self.3.objects()
                    + self.4.objects() + self.5.objects() + self.6.objects() + self.7.objects(),
                self.8.objects(),
            );
            old(token)@.lemma_accept_concat(
                self.0.objects() + self.1.objects() + self.2.objects() + self.3.objects()
                    + self.4.objects() + self.5.objects() + self.6.objects() + self.7.objects()
                    + self.8.objects(),
                self.9.objects(),
            );
            old(token)@.lemma_accept_concat(
                self.0.objects() + self.1.objects() + self.2.objects() + self.3.objects()
                    + self.4.objects() + self.5.objects() + self.6.objects() + self.7.objects()
                    + self.8.objects() + self.9.objects(),
                self.10.objects(),
            );
            old(token)@.lemma_accept_concat(
                self.0.objects() + self.1.objects() + self.2.objects() + self.3.objects()
                    + self.4.objects() + self.5.objects() + self.6.objects() + self.7.objects()
                    + self.8.objects() + self.9.objects() + self.10.objects(),
                self.11.objects(),
            );
            old(token)@.lemma_accept_concat(
                self.0.objects() + self.1.objects() + self.2.objects() + self.3.objects()
                    + self.4.objects() + self.5.objects() + self.6.objects() + self.7.objects()
                    + self.8.objects() + self.9.objects() + self.10.objects()
                    + self.11.objects(),
                self.12.objects(),
            );
            old(token)@.lemma_accept_concat(
                self.0.objects() + self.1.objects() + self.2.objects() + self.3.objects()
                    + self.4.objects() + self.5.objects() + self.6.objects() + self.7.objects()
                    + self.8.objects() + self.9.objects() + self.10.objects()
                    + self.11.objects() + self.12.objects(),
                self.13.objects(),
            );
            old(token)@.lemma_accept_concat(
                self.0.objects() + self.1.objects() + self.2.objects() + self.3.objects()
                    + self.4.objects() + self.5.objects() + self.6.objects() + self.7.objects()
                    + self.8.objects() + self.9.objects() + self.10.objects()
                    + self.11.objects() + self.12.objects() + self.13.objects(),
                self.14.objects(),
            );
        }
        self.0.trace(token);
        self.1.trace(token);
        self.2.trace(token);
        self.3.trace(token);
        self.4.trace(token);
        self.5.trace(token);
        self.6.trace(token);
        self.7.trace(token);
        self.8.trace(token);
        self.9.trace(token);
        self.10.trace(token);
        self.11.trace(token);
        self.12.trace(token);
        self.13.trace(token);
        self.14.trace(token);
    }

    fn finalize(&self, token: &mut GcDropToken) {
        self.0.finalize(token);
        self.1.finalize(token);
        self.2.finalize(token);
        self.3.finalize(token);
        self.4.finalize(token);
        self.5.finalize(token);
        self.6.finalize(token);
        self.7.finalize(token);
        self.8.finalize(token);
        self.9.finalize(token);
        self.10.finalize(token);
        self.11.finalize(token);
        self.12.finalize(token);
        self.13.finalize(token);
        self.14.finalize(token);
    }
}

impl<
    T0: GcTarget, T1: GcTarget, T2: GcTarget, T3: GcTarget, T4: GcTarget, T5: GcTarget,
    T6: GcTarget, T7: GcTarget, T8: GcTarget, T9: GcTarget, T10: GcTarget, T11: GcTarget,
    T12: GcTarget, T13: GcTarget, T14: GcTarget, T15: GcTarget,
> GcTarget for (
    T0, T1, T2, T3, T4, T5, T6, T7, T8, T9, T10, T11, T12, T13, T14, T15,
) {
    open spec fn objects(&self) -> Seq<usize> {
        self.0.objects() + self.1.objects() + self.2.objects() + self.3.objects()
            + self.4.objects() + self.5.objects() + self.6.objects() + self.7.objects()
            + self.8.objects() + self.9.objects() + self.10.objects() + self.11.objects()
            + self.12.objects() + self.13.objects() + self.14.objects() + self.15.objects()
    }

    open spec fn roots(&self) -> Seq<usize> {
        self.0.roots() + self.1.roots() + self.2.roots() + self.3.roots() + self.4.roots()
            + self.5.roots() + self.6.roots() + self.7.roots() + self.8.roots() + self.9.roots()
            + self.10.roots() + self.11.roots() + self.12.roots() + self.13.roots()
            + self.14.roots() + self.15.roots()
    }

    fn trace(&self, token: &mut GcTraceToken) {
        proof {
            old(token)@.lemma_accept_concat(self.0.objects(), self.1.objects());
            old(token)@.lemma_accept_concat(self.0.objects() + self.1.objects(), self.2.objects());
            old(token)@.lemma_accept_concat(
                self.0.objects() + self.1.objects() + self.2.objects(),
                self.3.objects(),
            );
            old(token)@.lemma_accept_concat(
                self.0.objects() + self.1.objects() + self.2.objects() + self.3.objects(),
                self.4.objects(),
            );
            old(token)@.lemma_accept_concat(
                self.0.objects() + self.1.objects() + self.2.objects() + self.3.objects()
                    + self.4.objects(),
                self.5.objects(),
            );
            old(token)@.lemma_accept_concat(
                self.0.objects() + self.1.objects() + self.2.objects() + self.3.objects()
                    + self.4.objects() + self.5.objects(),
                self.6.objects(),
            );
            old(token)@.lemma_accept_concat(
                self.0.objects() + self.1.objects() + self.2.objects() + self.3.objects()
                    + self.4.objects() + self.5.objects() + self.6.objects(),
                self.7.objects(),
            );
            old(token)@.lemma_accept_concat(
                self.0.objects() + self.1.objects() + self.2.objects() + self.3.objects()
                    + self.4.objects() + self.5.objects() + self.6.objects() + self.7.objects(),
                self.8.objects(),
            );
            old(token)@.lemma_accept_concat(
                self.0.objects() + self.1.objects() + self.2.objects() + self.3.objects()
                    + self.4.objects() + self.5.objects() + self.6.objects() + self.7.objects()
                    + self.8.objects(),
                self.9.objects(),
            );
            old(token)@.lemma_accept_concat(
                self.0.objects() + self.1.objects() + self.2.objects() + self.3.objects()
                    + self.4.objects() + self.5.objects() + self.6.objects() + self.7.objects()
                    + self.8.objects() + self.9.objects(),
                self.10.objects(),
            );
            old(token)@.lemma_accept_concat(
                self.0.objects() + self.1.objects() + self.2.objects() + self.3.objects()
                    + self.4.objects() + self.5.objects() + self.6.objects() + self.7.objects()
                    + self.8.objects() + self.9.objects() + self.10.objects(),
                self.11.objects(),
            );
            old(token)@.lemma_accept_concat(
                self.0.objects() + self.1.objects() + self.2.objects() + self.3.objects()
                    + self.4.objects() + self.5.objects() + self.6.objects() + self.7.objects()
                    + self.8.objects() + self.9.objects() + self.10.objects()
                    + self.11.objects(),
                self.12.objects(),
            );
            old(token)@.lemma_accept_concat(
                self.0.objects() + self.1.objects() + self.2.objects() + self.3.objects()
                    + self.4.objects() + self.5.objects() + self.6.objects() + self.7.objects()
                    + self.8.objects() + self.9.objects() + self.10.objects()
                    + self.11.objects() + self.12.objects(),
                self.13.objects(),
            );
            old(token)@.lemma_accept_concat(
                self.0.objects() + self.1.objects() + self.2.objects() + self.3.objects()
                    + self.4.objects() + self.5.objects() + self.6.objects() + self.7.objects()
                    + self.8.objects() + self.9.objects() + self.10.objects()
                    + self.11.objects() + self.12.objects() + self.13.objects(),
                self.14.objects(),
            );
            old(token)@.lemma_accept_concat(
                self.0.objects() + self.1.objects() + self.2.objects() + self.3.objects()
                    + self.4.objects() + self.5.objects() + self.6.objects() + self.7.objects()
                    + self.8.objects() + self.9.objects() + self.10.objects()
                    + self.11.objects() + self.12.objects() + self.13.objects()
                    + self.14.objects(),
                self.15.objects(),
            );
        }
        self.0.trace(token);
        self.1.trace(token);
        self.2.trace(token);
        self.3.trace(token);
        self.4.trace(token);
        self.5.trace(token);
        self.6.trace(token);
        self.7.trace(token);
        self.8.trace(token);
        self.9.trace(token);
        self.10.trace(token);
        self.11.trace(token);
        self.12.trace(token);
        self.13.trace(token);
        self.14.trace(token);
        self.15.trace(token);
    }

    fn finalize(&self, token: &mut GcDropToken) {
        self.0.finalize(token);
        self.1.finalize(token);
        self.2.finalize(token);
        self.3.finalize(token);
        self.4.finalize(token);
        self.5.finalize(token);
        self.6.finalize(token);
        self.7.finalize(token);
        self.8.finalize(token);
        self.9.finalize(token);
        self.10.finalize(token);
        self.11.finalize(token);
        self.12.finalize(token);
        self.13.finalize(token);
        self.14.finalize(token);
        self.15.finalize(token);
    }
}

} // verus!
